//! The solved check and the backtracking search.

use vstd::prelude::*;
use crate::candidates::strictly_increasing;
use crate::model::{Color, Constraint, Graph, Node};
use quickbacktrack::Puzzle;

verus! {

/// Settings of a search.
#[derive(Clone, Copy, Debug)]
pub struct SolveSettings {
    /// Whether the search traces its steps on standard error.
    pub debug: bool,
    /// The number of milliseconds to sleep before each traced step; 0 disables.
    pub sleep_ms: u64,
}

impl SolveSettings {
    /// Creates new solve settings: no trace, no sleep.
    pub fn new() -> (s: SolveSettings)
        ensures
            !s.debug,
            s.sleep_ms == 0,
    {
        SolveSettings { debug: false, sleep_ms: 0 }
    }

    /// Sets whether the search traces its steps.
    pub fn debug(self, val: bool) -> (s: SolveSettings)
        ensures
            s.debug == val,
            s.sleep_ms == self.sleep_ms,
    {
        SolveSettings { debug: val, sleep_ms: self.sleep_ms }
    }

    /// Sets the sleep before each traced step, in milliseconds.
    pub fn sleep_ms(self, val: u64) -> (s: SolveSettings)
        ensures
            s.debug == self.debug,
            s.sleep_ms == val,
    {
        SolveSettings { debug: self.debug, sleep_ms: val }
    }

    /// The sleep that the settings ask for, if any.
    pub open spec fn nap(&self) -> Option<u64> {
        if self.sleep_ms == 0 {
            None
        } else {
            Some(self.sleep_ms)
        }
    }
}

/// Contains solution.
pub struct Solution {
    /// The solved puzzle.
    pub puzzle: Graph,
    /// The number of iterations used to solve the puzzle.
    pub iterations: u64,
    /// The strategy that found the solution.
    pub strategy: Option<usize>,
}

/// A node template as plain values: its color, whether it may be joined to
/// itself, and its entries as `(edge color, node color)`.
pub open spec fn node_model(n: Node) -> (Color, bool, Seq<(Color, Color)>) {
    (n.color, n.self_connected, n.edges@.map_values(|c: Constraint| (c.edge, c.node)))
}

/// The rows of a matrix as plain values.
pub open spec fn rows_of(m: Vec<Vec<Color>>) -> Seq<Seq<Color>> {
    m@.map_values(|r: Vec<Color>| r@)
}

/// What the backtracking search of `quickbacktrack` ends with when it starts
/// from the graph with these node templates, matrix rows, required pairs and
/// rules `(no_triangles, meet_quad, connected, commute_quad)`: the rows of the
/// final matrix and the number of iterations, or nothing when the search
/// runs out of choices.
pub uninterp spec fn backtrack_result(
    nodes: Seq<(Color, bool, Seq<(Color, Color)>)>,
    rows: Seq<Seq<Color>>,
    pairs: Seq<(usize, usize)>,
    rules: (bool, bool, bool, Option<bool>),
    debug: bool,
    nap: Option<u64>,
) -> Option<(Seq<Seq<Color>>, u64)>;

/// The plain values of what a search handed back.
pub open spec fn found_model(found: Option<(Vec<Vec<Color>>, u64)>) -> Option<(Seq<Seq<Color>>, u64)> {
    match found {
        Some((rows, iterations)) => Some((rows_of(rows), iterations)),
        None => None,
    }
}

impl Graph {
    /// Whether every template, every required pair and every rule that is
    /// switched on holds.
    pub open spec fn solved(&self) -> bool {
        &&& self.all_met()
        &&& self.pairs_met()
        &&& self.no_triangles ==> !self.triangles_exist()
        &&& self.connected ==> self.all_reachable()
        &&& self.commute_quad is Some ==> self.quads_agree(self.commute_quad->0)
        &&& self.meet_quad ==> self.all_meet()
    }

    /// The node templates as plain values.
    pub open spec fn node_models(&self) -> Seq<(Color, bool, Seq<(Color, Color)>)> {
        self.nodes@.map_values(|n: Node| node_model(n))
    }

    /// The rows of the matrix as plain values.
    pub open spec fn rows(&self) -> Seq<Seq<Color>> {
        rows_of(self.edges)
    }

    /// The four rules: `(no_triangles, meet_quad, connected, commute_quad)`.
    pub open spec fn rules(&self) -> (bool, bool, bool, Option<bool>) {
        (self.no_triangles, self.meet_quad, self.connected, self.commute_quad)
    }

    /// Whether `rows` is a matrix for this graph's nodes with which the graph is solved.
    pub open spec fn accepts(&self, rows: Seq<Seq<Color>>) -> bool {
        exists|g: Graph|
            g.same_setup(self) && g.well_shaped() && g.rows() == rows && #[trigger] g.solved()
    }

    /// Two graphs with the same setup and the same colors are solved together.
    pub proof fn same_edges_same_solved(&self, other: &Graph)
        requires
            self.same_edges(other),
            self.same_setup(other),
        ensures
            self.solved() == other.solved(),
    {
        self.same_edges_same_facts(other);
        assert(self.all_met() == other.all_met()) by {
            if self.all_met() {
                assert forall|i: int| 0 <= i < other.size() implies (#[trigger] other.unmet(
                    i,
                )).len() == 0 by {
                    assert(self.unmet(i) == other.unmet(i));
                }
            }
            if other.all_met() {
                assert forall|i: int| 0 <= i < self.size() implies (#[trigger] self.unmet(
                    i,
                )).len() == 0 by {
                    assert(self.unmet(i) == other.unmet(i));
                }
            }
        }
        assert(self.pairs_met() == other.pairs_met()) by {
            if self.pairs_met() {
                assert forall|p: int| 0 <= p < other.pairs@.len() implies other.concrete(
                    (#[trigger] other.pairs@[p]).1 as int,
                    other.pairs@[p].0 as int,
                ) by {
                    assert(self.concrete(self.pairs@[p].1 as int, self.pairs@[p].0 as int));
                }
            }
            if other.pairs_met() {
                assert forall|p: int| 0 <= p < self.pairs@.len() implies self.concrete(
                    (#[trigger] self.pairs@[p]).1 as int,
                    self.pairs@[p].0 as int,
                ) by {
                    assert(other.concrete(other.pairs@[p].1 as int, other.pairs@[p].0 as int));
                }
            }
        }
        assert(self.all_meet() == other.all_meet()) by {
            if self.all_meet() {
                assert forall|i: int| 0 <= i < other.size() implies #[trigger] other.meets(i) by {
                    assert(self.meets(i));
                }
            }
            if other.all_meet() {
                assert forall|i: int| 0 <= i < self.size() implies #[trigger] self.meets(i) by {
                    assert(other.meets(i));
                }
            }
        }
        assert(self.quads_agree(self.commute_quad->0) == other.quads_agree(self.commute_quad->0));
    }

    /// The graph as a search writes to it: with the upper right cell
    /// cleared where `val` is concrete and `{i, j}` is a no-edge.
    pub open spec fn before_write(self, i: int, j: int, val: Color) -> Graph {
        if val >= 2 && self.edge(i, j) == 1 {
            Graph { cache_upper_right_disconnected: false, ..self }
        } else {
            self
        }
    }

    /// Whether the graph is solved.
    pub fn is_solved(&self) -> (r: bool)
        requires
            self.wf(),
        ensures
            r == self.solved(),
    {
        self.all_satisfied() && self.pairs_satisfied() && (!self.no_triangles
            || !self.has_triangles()) && (!self.connected || self.is_connected()) && (match self.commute_quad {
            Some(val) => self.commute_quad_satisfied(val),
            None => true,
        }) && (!self.meet_quad || self.meet_quad_satisfied())
    }

    /// The color that the pair `pos` is forced to take: its only legal
    /// color, if it has exactly one.
    pub fn forced(&self, pos: (usize, usize)) -> (r: Option<Color>)
        requires
            self.wf(),
            pos.0 < self.size(),
            pos.1 < self.size(),
        ensures
            r is Some <==> self.choices(pos.0 as int, pos.1 as int) == 1,
            r is Some ==> self.candidate(pos.0 as int, pos.1 as int, r->0),
    {
        let colors = self.colors(pos);
        if colors.len() == 1 {
            assert(colors@.contains(colors@[0]));
            Some(colors[0])
        } else {
            None
        }
    }

    /// Resets to undecided every pair that is decided in `other`, which shows
    /// what `self` has that `other` has not.
    pub fn remove(&mut self, other: &Graph)
        requires
            old(self).wf(),
            other.well_shaped(),
            other.size() == old(self).size(),
        ensures
            final(self).wf(),
            final(self).same_setup(old(self)),
            forall|a: int, b: int|
                0 <= a < final(self).size() && 0 <= b < final(self).size() ==> #[trigger] final(self).edge(a, b) == if other.edge(a, b) != 0 {
                    0
                } else {
                    old(self).edge(a, b)
                },
    {
        let n = self.nodes.len();
        let mut i: usize = 0;
        while i < n
            invariant
                self.wf(),
                self.same_setup(old(self)),
                other.well_shaped(),
                n == self.size(),
                n == other.size(),
                i <= n,
                forall|a: int, b: int|
                    0 <= a <= b < n ==> #[trigger] self.edge(a, b) == if a < i && other.edge(a, b)
                        != 0 {
                        0
                    } else {
                        old(self).edge(a, b)
                    },
            decreases n - i,
        {
            let mut j: usize = i;
            while j < n
                invariant
                    self.wf(),
                    self.same_setup(old(self)),
                    other.well_shaped(),
                    n == self.size(),
                    n == other.size(),
                    i < n,
                    i <= j <= n,
                    forall|a: int, b: int|
                        0 <= a <= b < n ==> #[trigger] self.edge(a, b) == if (a < i || (a == i && b
                            < j)) && other.edge(a, b) != 0 {
                            0
                        } else {
                            old(self).edge(a, b)
                        },
                decreases n - j,
            {
                if other.get((i, j)) != 0 {
                    self.set((i, j), 0);
                }
                j += 1;
            }
            i += 1;
        }
        proof {
            assert forall|a: int, b: int| 0 <= a < n && 0 <= b < n implies #[trigger] self.edge(
                a,
                b,
            ) == if other.edge(a, b) != 0 {
                0
            } else {
                old(self).edge(a, b)
            } by {
                if a > b {
                    assert(self.edge(a, b) == self.edge(b, a));
                    assert(other.edge(a, b) == other.edge(b, a));
                    assert(old(self).edge(a, b) == old(self).edge(b, a));
                }
            }
        }
    }

    /// Makes a copy with the same nodes, pairs, rules and colors, and with
    /// cleared memo cells.
    pub fn duplicate(&self) -> (g: Graph)
        requires
            self.well_shaped(),
        ensures
            g.wf(),
            g.cells_clear(),
            g.node_models() == self.node_models(),
            g.rows() == self.rows(),
            g.pairs@ == self.pairs@,
            g.rules() == self.rules(),
    {
        let n = self.nodes.len();
        let mut nodes: Vec<Node> = Vec::new();
        let mut edges: Vec<Vec<Color>> = Vec::new();
        let mut cells: Vec<bool> = Vec::new();
        let mut i: usize = 0;
        while i < n
            invariant
                self.well_shaped(),
                n == self.size(),
                i <= n,
                nodes@.len() == i,
                edges@.len() == i,
                cells@.len() == i,
                forall|x: int| 0 <= x < i ==> node_model(#[trigger] nodes@[x]) == node_model(self.nodes@[x]),
                forall|x: int| 0 <= x < i ==> (#[trigger] edges@[x])@ == self.edges@[x]@,
                forall|x: int| 0 <= x < i ==> !#[trigger] cells@[x],
            decreases n - i,
        {
            let from = &self.nodes[i];
            let mut want: Vec<Constraint> = Vec::new();
            let mut k: usize = 0;
            while k < from.edges.len()
                invariant
                    k <= from.edges@.len(),
                    want@ == from.edges@.subrange(0, k as int),
                decreases from.edges@.len() - k,
            {
                want.push(from.edges[k]);
                assert(want@ =~= from.edges@.subrange(0, k as int + 1));
                k += 1;
            }
            assert(want@ =~= from.edges@);
            nodes.push(Node { color: from.color, self_connected: from.self_connected, edges: want });
            let row = &self.edges[i];
            let mut copy: Vec<Color> = Vec::new();
            let mut k: usize = 0;
            while k < row.len()
                invariant
                    k <= row@.len(),
                    copy@ == row@.subrange(0, k as int),
                decreases row@.len() - k,
            {
                copy.push(row[k]);
                assert(copy@ =~= row@.subrange(0, k as int + 1));
                k += 1;
            }
            assert(copy@ =~= row@);
            edges.push(copy);
            cells.push(false);
            i += 1;
        }
        let mut pairs: Vec<(usize, usize)> = Vec::new();
        let mut p: usize = 0;
        while p < self.pairs.len()
            invariant
                p <= self.pairs@.len(),
                pairs@ == self.pairs@.subrange(0, p as int),
            decreases self.pairs@.len() - p,
        {
            pairs.push(self.pairs[p]);
            assert(pairs@ =~= self.pairs@.subrange(0, p as int + 1));
            p += 1;
        }
        assert(pairs@ =~= self.pairs@);
        let g = Graph {
            nodes,
            edges,
            pairs,
            no_triangles: self.no_triangles,
            meet_quad: self.meet_quad,
            connected: self.connected,
            commute_quad: self.commute_quad,
            cache_has_triangles: false,
            cache_connected: false,
            cache_upper_right_disconnected: false,
            cache_commute_quad_satisfied: false,
            cache_node_satisfied: cells,
        };
        assert(g.node_models() =~= self.node_models());
        assert(g.rows() =~= self.rows());
        g
    }

    /// Takes `rows` as the graph's matrix if the graph is solved with it.
    /// The solution keeps the nodes, pairs and rules, and starts with
    /// cleared memo cells.
    pub fn adopt(self, rows: Vec<Vec<Color>>, iterations: u64) -> (r: Option<Solution>)
        requires
            self.wf(),
        ensures
            r is Some <==> self.accepts(rows_of(rows)),
            r is Some ==> self.settled(Some((rows_of(rows), iterations)), r),
    {
        let n = self.nodes.len();
        let mut fits = rows.len() == n;
        let mut i: usize = 0;
        while fits && i < n
            invariant
                n == self.size(),
                i <= n,
                fits ==> rows@.len() == n,
                fits ==> forall|x: int| 0 <= x < i ==> (#[trigger] rows@[x])@.len() == x + 1,
                !fits ==> !(rows@.len() == n && forall|x: int|
                    0 <= x < n ==> (#[trigger] rows@[x])@.len() == x + 1),
            decreases n - i + if fits { 1int } else { 0int },
        {
            if rows[i].len() != i + 1 {
                fits = false;
            } else {
                i += 1;
            }
        }
        if !fits {
            assert(!self.accepts(rows_of(rows))) by {
                if self.accepts(rows_of(rows)) {
                    let g = choose|g: Graph|
                        g.same_setup(&self) && g.well_shaped() && g.rows() == rows_of(rows)
                            && #[trigger] g.solved();
                    assert(g.rows().len() == g.edges@.len());
                    assert(rows_of(rows).len() == rows@.len());
                    assert forall|x: int| 0 <= x < n implies (#[trigger] rows@[x])@.len() == x
                        + 1 by {
                        assert(g.rows()[x] == rows_of(rows)[x]);
                    }
                }
            }
            return None;
        }
        let mut puzzle = self;
        puzzle.edges = rows;
        puzzle.clear_cache();
        let ok = puzzle.is_solved();
        proof {
            if self.accepts(rows_of(rows)) {
                let g = choose|g: Graph|
                    g.same_setup(&self) && g.well_shaped() && g.rows() == rows_of(rows)
                        && #[trigger] g.solved();
                assert(g.same_edges(&puzzle)) by {
                    assert forall|x: int, y: int|
                        0 <= x < g.size() && 0 <= y < g.size() implies #[trigger] g.edge(x, y)
                        == puzzle.edge(x, y) by {
                        assert(g.rows()[x] == puzzle.rows()[x]);
                        assert(g.rows()[y] == puzzle.rows()[y]);
                    }
                }
                g.same_edges_same_solved(&puzzle);
            }
        }
        if ok {
            Some(Solution { puzzle, iterations, strategy: None })
        } else {
            None
        }
    }

    /// Whether `r` is what a search from `self` gives when the backtracking
    /// ended with `found`: the graph with the found matrix if the graph is
    /// solved with it, and nothing otherwise.
    pub open spec fn settled(&self, found: Option<(Seq<Seq<Color>>, u64)>, r: Option<Solution>) -> bool {
        match r {
            Some(sol) => {
                &&& found == Some((sol.puzzle.rows(), sol.iterations))
                &&& sol.strategy is None
                &&& sol.puzzle.same_setup(self)
                &&& sol.puzzle.wf()
                &&& sol.puzzle.cells_clear()
                &&& sol.puzzle.solved()
            },
            None => match found {
                Some((rows, _)) => !self.accepts(rows),
                None => true,
            },
        }
    }

    /// Solves the graph puzzle: a backtracking search that at each step takes
    /// the pair that `min_colors` picks and tries the colors that `colors`
    /// lists for it, last first. Returns the solved graph, or nothing when
    /// there is no solution.
    pub fn solve(self, solve_settings: SolveSettings) -> (r: Option<Solution>)
        requires
            self.wf(),
        ensures
            self.settled(
                backtrack_result(
                    self.node_models(),
                    self.rows(),
                    self.pairs@,
                    self.rules(),
                    solve_settings.debug,
                    solve_settings.nap(),
                ),
                r,
            ),
    {
        let nap = if solve_settings.sleep_ms == 0 {
            None
        } else {
            Some(solve_settings.sleep_ms)
        };
        let start = SearchState::new(self.duplicate());
        match run_backtrack(start, solve_settings.debug, nap) {
            Some((rows, iterations)) => self.adopt(rows, iterations),
            None => None,
        }
    }
}

/// A graph under search. It is well formed at every step.
pub struct SearchState {
    graph: Graph,
}

impl Graph {
    /// Whether writing `val` to `{i, j}` is a forced move: the pair lies above
    /// the diagonal and `val` is its only legal color.
    pub open spec fn forced_move(&self, i: int, j: int, val: Color) -> bool {
        0 <= i < j < self.size() && self.choices(i, j) == 1 && self.candidate(i, j, val)
    }

    /// Whether no pair above the diagonal has exactly one legal color.
    pub open spec fn nothing_forced(&self) -> bool {
        forall|a: int, b: int| 0 <= a < b < self.size() ==> #[trigger] self.choices(a, b) != 1
    }
}

/// Runs `quickbacktrack::BackTrackSolver::solve` from `state`, with
/// `SearchState::next_position` to pick the pair and `SearchState::options`
/// to list its colors, and hands back the final matrix and the number of
/// iterations. The claim is that the outcome is a function of the graph's
/// nodes, colors, pairs and rules: the search draws on nothing else.
#[verifier::external_body]
fn run_backtrack(state: SearchState, debug: bool, nap: Option<u64>) -> (found: Option<
    (Vec<Vec<Color>>, u64),
>)
    ensures
        found_model(found) == backtrack_result(
            state@.node_models(),
            state@.rows(),
            state@.pairs@,
            state@.rules(),
            debug,
            nap,
        ),
{
    let settings = quickbacktrack::SolveSettings::new().debug(debug).maybe_sleep_ms(nap);
    quickbacktrack::BackTrackSolver::new(state, settings).solve(
        SearchState::next_position,
        SearchState::options,
    ).map(|s| (s.puzzle.graph.edges, s.iterations))
}

impl Clone for SearchState {
    fn clone(&self) -> (s: SearchState)
        ensures
            s@.wf(),
            s@.cells_clear(),
            s@.node_models() == self@.node_models(),
            s@.rows() == self@.rows(),
            s@.pairs@ == self@.pairs@,
            s@.rules() == self@.rules(),
    {
        proof {
            use_type_invariant(self);
        }
        SearchState { graph: self.graph.duplicate() }
    }
}

impl SearchState {
    #[verifier::type_invariant]
    spec fn inv(&self) -> bool {
        self.graph.wf()
    }

    /// The graph that the search stands at.
    pub closed spec fn view(&self) -> Graph {
        self.graph
    }

    /// Starts a search at `graph`.
    pub fn new(graph: Graph) -> (s: SearchState)
        requires
            graph.wf(),
        ensures
            s@ == graph,
    {
        SearchState { graph }
    }

    /// Ends the search and hands out the graph.
    pub fn into_graph(self) -> (g: Graph)
        ensures
            g == self@,
            g.wf(),
    {
        proof {
            use_type_invariant(&self);
        }
        self.graph
    }

    /// The number of nodes.
    pub fn len(&self) -> (n: usize)
        ensures
            n == self@.size(),
            self@.wf(),
    {
        proof {
            use_type_invariant(self);
        }
        self.graph.nodes.len()
    }

    /// The pair to decide next: what `Graph::min_colors` picks.
    pub fn next_position(&self) -> (r: Option<(usize, usize)>)
        ensures
            match r {
                Some(p) => self@.least_choice(p.0 as int, p.1 as int),
                None => self@.no_choice(),
            },
    {
        proof {
            use_type_invariant(self);
        }
        self.graph.min_colors()
    }

    /// The legal colors of the pair `pos`, as `Graph::colors` lists them;
    /// none when `pos` names no pair.
    pub fn options(&self, pos: (usize, usize)) -> (res: Vec<Color>)
        ensures
            strictly_increasing(res@),
            forall|c: Color|
                res@.contains(c) <==> (pos.0 < self@.size() && pos.1 < self@.size()
                    && self@.candidate(pos.0 as int, pos.1 as int, c)),
    {
        proof {
            use_type_invariant(self);
        }
        let n = self.graph.nodes.len();
        if pos.0 < n && pos.1 < n {
            self.graph.colors(pos)
        } else {
            Vec::new()
        }
    }

    /// The color that the pair `pos` is forced to take, as `Graph::forced`
    /// finds it; none when `pos` names no pair.
    pub fn forced_at(&self, pos: (usize, usize)) -> (r: Option<Color>)
        ensures
            r is Some <==> (pos.0 < self@.size() && pos.1 < self@.size() && self@.choices(
                pos.0 as int,
                pos.1 as int,
            ) == 1),
            r is Some ==> self@.candidate(pos.0 as int, pos.1 as int, r->0),
    {
        proof {
            use_type_invariant(self);
        }
        let n = self.graph.nodes.len();
        if pos.0 < n && pos.1 < n {
            self.graph.forced(pos)
        } else {
            None
        }
    }

    /// The graph as text, as `Graph::to_text` writes it.
    pub fn to_text(&self) -> (s: String)
        ensures
            s@ == self@.listing(),
    {
        proof {
            use_type_invariant(self);
        }
        self.graph.to_text()
    }

    /// Reads the color of the pair `pos`; undecided when `pos` names no pair.
    pub fn read(&self, pos: (usize, usize)) -> (c: Color)
        ensures
            c == if pos.0 < self@.size() && pos.1 < self@.size() {
                self@.edge(pos.0 as int, pos.1 as int)
            } else {
                0
            },
    {
        proof {
            use_type_invariant(self);
        }
        let n = self.graph.nodes.len();
        if pos.0 < n && pos.1 < n {
            self.graph.get(pos)
        } else {
            0
        }
    }

    /// Writes `val` to the pair `pos`, if `pos` names a pair. Where a
    /// concrete color is about to replace a no-edge, the upper right cell is
    /// given up first: it could not stay true.
    pub fn write(&mut self, pos: (usize, usize), val: Color)
        ensures
            pos.0 < old(self)@.size() && pos.1 < old(self)@.size() ==> final(self)@.recolored(
                &old(self)@,
                pos.0 as int,
                pos.1 as int,
                val,
            ),
            !(pos.0 < old(self)@.size() && pos.1 < old(self)@.size()) ==> final(self)@ == old(self)@,
            pos.0 < old(self)@.size() && pos.1 < old(self)@.size() ==> final(self)@.cells_after_write(
                &old(self)@.before_write(pos.0 as int, pos.1 as int, val),
                pos.0 as int,
                pos.1 as int,
                val,
            ),
            final(self)@.wf(),
    {
        proof {
            use_type_invariant(&*self);
        }
        let n = self.graph.nodes.len();
        if pos.0 < n && pos.1 < n {
            let mut graph = Graph::new();
            std::mem::swap(&mut self.graph, &mut graph);
            let ghost before = graph;
            if val >= 2 && graph.cache_upper_right_disconnected && graph.get(pos) == 1 {
                graph.cache_upper_right_disconnected = false;
                proof {
                    before.same_edges_same_facts(&graph);
                }
            }
            graph.set(pos, val);
            std::mem::swap(&mut self.graph, &mut graph);
        }
    }

    /// Resets every pair that is decided in `other`, if the two have the same size.
    pub fn subtract(&mut self, other: &SearchState)
        ensures
            final(self)@.same_setup(&old(self)@),
            final(self)@.wf(),
            other@.size() != old(self)@.size() ==> final(self)@ == old(self)@,
            other@.size() == old(self)@.size() ==> forall|a: int, b: int|
                0 <= a < old(self)@.size() && 0 <= b < old(self)@.size() ==> #[trigger] final(self)@.edge(
                    a,
                    b,
                ) == if other@.edge(a, b) != 0 {
                    0
                } else {
                    old(self)@.edge(a, b)
                },
    {
        proof {
            use_type_invariant(&*self);
            use_type_invariant(other);
        }
        if other.graph.nodes.len() == self.graph.nodes.len() {
            let mut graph = Graph::new();
            std::mem::swap(&mut self.graph, &mut graph);
            graph.remove(&other.graph);
            std::mem::swap(&mut self.graph, &mut graph);
        }
    }
}

impl Puzzle for SearchState {
    type Pos = (usize, usize);

    type Val = Color;

    /// Hands each pair above the diagonal that has exactly one legal color, with
    /// that color, to `f`, in row-major order; `f` alone changes the state.
    fn solve_simple<F: FnMut(&mut Self, Self::Pos, Self::Val)>(&mut self, mut f: F)
        ensures
            old(self)@.nothing_forced() ==> final(self)@ == old(self)@,
            final(self)@.wf(),
    {
        let n = self.len();
        let mut i: usize = 0;
        while i < n
            invariant
                i <= n,
                n == old(self)@.size(),
                old(self)@.nothing_forced() ==> self@ == old(self)@,
            decreases n - i,
        {
            let mut j: usize = i + 1;
            while j < n
                invariant
                    i < j <= n,
                    n == old(self)@.size(),
                    old(self)@.nothing_forced() ==> self@ == old(self)@,
                decreases n - j,
            {
                match self.forced_at((i, j)) {
                    Some(c) => {
                        assert(!old(self)@.nothing_forced()) by {
                            if old(self)@.nothing_forced() {
                                assert(old(self)@.choices(i as int, j as int) != 1);
                            }
                        }
                        hand_to(&mut f, self, (i, j), c)
                    },
                    None => {},
                }
                j += 1;
            }
            i += 1;
        }
        proof {
            use_type_invariant(&*self);
        }
    }

    /// Reads as `SearchState::read` does.
    fn get(&self, pos: (usize, usize)) -> (c: Color)
        ensures
            c == if pos.0 < self@.size() && pos.1 < self@.size() {
                self@.edge(pos.0 as int, pos.1 as int)
            } else {
                0
            },
    {
        self.read(pos)
    }

    /// Whether the graph is solved.
    fn is_solved(&self) -> (r: bool)
        ensures
            r == self@.solved(),
    {
        proof {
            use_type_invariant(self);
        }
        self.graph.is_solved()
    }

    /// Resets every pair that is decided in `other`, as `SearchState::subtract` does.
    fn remove(&mut self, other: &SearchState)
        ensures
            final(self)@.same_setup(&old(self)@),
            final(self)@.wf(),
            other@.size() != old(self)@.size() ==> final(self)@ == old(self)@,
            other@.size() == old(self)@.size() ==> forall|a: int, b: int|
                0 <= a < old(self)@.size() && 0 <= b < old(self)@.size() ==> #[trigger] final(self)@.edge(
                    a,
                    b,
                ) == if other@.edge(a, b) != 0 {
                    0
                } else {
                    old(self)@.edge(a, b)
                },
    {
        self.subtract(other)
    }

    /// Writes as `SearchState::write` does.
    fn set(&mut self, pos: (usize, usize), val: Color)
        ensures
            pos.0 < old(self)@.size() && pos.1 < old(self)@.size() ==> final(self)@.recolored(
                &old(self)@,
                pos.0 as int,
                pos.1 as int,
                val,
            ),
            !(pos.0 < old(self)@.size() && pos.1 < old(self)@.size()) ==> final(self)@ == old(self)@,
    {
        self.write(pos, val)
    }

    /// Prints nothing: the search state has no console.
    fn print(&self) {
    }
}

/// Calls the closure that `quickbacktrack::BackTrackSolver::solve` hands to
/// `Puzzle::solve_simple`: it records the move and writes it through
/// `Puzzle::set`. Only a forced move may be handed over: a pair above the
/// diagonal with exactly one legal color, and that color. Nothing is claimed
/// of the state after the call.
#[verifier::external_body]
fn hand_to<F: FnMut(&mut SearchState, (usize, usize), Color)>(
    f: &mut F,
    state: &mut SearchState,
    pos: (usize, usize),
    val: Color,
)
    requires
        old(state)@.forced_move(pos.0 as int, pos.1 as int, val),
{
    f(state, pos, val)
}

} // verus!
