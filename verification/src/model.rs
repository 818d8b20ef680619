//! The graph state: node templates, the symmetric edge matrix and its accessors.

use vstd::prelude::*;

verus! {

/// The type of color.
pub type Color = u64;

/// Edges with value 0 are undecided.
pub const EMPTY_EDGE: Color = 0;

/// Edges with value 1 are definitely absent.
pub const DISCONNECTED_EDGE: Color = 1;

/// One required incident edge: its color and the color of the node it leads to.
#[derive(Copy, Clone, Debug, PartialEq, Eq, Structural)]
pub struct Constraint {
    /// The edge color.
    pub edge: Color,
    /// The node color.
    pub node: Color,
}

/// Stores a description of a node.
#[derive(Clone, Debug, PartialEq, Eq)]
pub struct Node {
    /// The color of the node.
    pub color: Color,
    /// Whether the node can be self-connected.
    pub self_connected: bool,
    /// The edges constraints of the node. Duplicates count: two equal
    /// entries ask for two distinct incident edges.
    pub edges: Vec<Constraint>,
}

/// Stores information about graph.
///
/// The five `cache_*` fields are memo cells: a cell that is `true` records
/// that its predicate is known to hold; a cell that is `false` records nothing.
#[derive(Clone, Debug)]
pub struct Graph {
    /// Nodes.
    pub nodes: Vec<Node>,
    /// Edges, as a lower triangle: row `i` holds the colors of `(i, 0)` to `(i, i)`.
    pub edges: Vec<Vec<Color>>,
    /// Pair constraints, using indices, each stored as `(low, high)`.
    pub pairs: Vec<(usize, usize)>,
    /// Whether triangle cycles are forbidden.
    pub no_triangles: bool,
    /// Whether every node must lie on a cycle of length 4 or less.
    pub meet_quad: bool,
    /// Whether any node can be reached from any other node.
    pub connected: bool,
    /// Whether every quad must commute (`Some(true)`) or anticommute (`Some(false)`).
    pub commute_quad: Option<bool>,
    /// Known: the graph holds a triangle.
    pub cache_has_triangles: bool,
    /// Known: every node is reachable from node 0.
    pub cache_connected: bool,
    /// Known: the upper right rectangle of the matrix holds no-edges only.
    pub cache_upper_right_disconnected: bool,
    /// Known: every quad passes the rule that `commute_quad` selects.
    pub cache_commute_quad_satisfied: bool,
    /// Known, per node: the node's template is fully matched.
    pub cache_node_satisfied: Vec<bool>,
}

impl Graph {
    /// The number of nodes.
    pub open spec fn size(&self) -> int {
        self.nodes@.len() as int
    }

    /// The matrix has one row per node, row `i` has `i + 1` entries, there is
    /// one memo cell per node, and every required pair is `(low, high)` in range.
    pub open spec fn well_shaped(&self) -> bool {
        &&& self.edges@.len() == self.nodes@.len()
        &&& self.cache_node_satisfied@.len() == self.nodes@.len()
        &&& forall|i: int| 0 <= i < self.edges@.len() ==> (#[trigger] self.edges@[i])@.len() == i + 1
        &&& forall|p: int|
            0 <= p < self.pairs@.len() ==> (#[trigger] self.pairs@[p]).0 <= self.pairs@[p].1
                < self.nodes@.len()
    }

    /// The color stored for the unordered pair `{i, j}`.
    pub open spec fn edge(&self, i: int, j: int) -> Color {
        if j <= i {
            self.edges@[i]@[j]
        } else {
            self.edges@[j]@[i]
        }
    }

    /// Whether `{i, j}` carries a concrete edge (a color of 2 or more).
    pub open spec fn concrete(&self, i: int, j: int) -> bool {
        self.edge(i, j) >= 2
    }

    /// Whether `{a, b}` and `{i, j}` are the same unordered pair.
    pub open spec fn same_pair(a: int, b: int, i: int, j: int) -> bool {
        (a == i && b == j) || (a == j && b == i)
    }

    /// Whether `self` and `other` have the same nodes, required pairs and rules.
    pub open spec fn same_setup(&self, other: &Graph) -> bool {
        &&& self.nodes == other.nodes
        &&& self.pairs == other.pairs
        &&& self.no_triangles == other.no_triangles
        &&& self.meet_quad == other.meet_quad
        &&& self.connected == other.connected
        &&& self.commute_quad == other.commute_quad
    }

    /// Whether `self` is `before` with the pair `{i, j}` recolored to `val`
    /// and every other pair untouched.
    pub open spec fn recolored(&self, before: &Graph, i: int, j: int, val: Color) -> bool {
        &&& self.same_setup(before)
        &&& self.well_shaped()
        &&& forall|a: int, b: int|
            0 <= a < self.size() && 0 <= b < self.size() ==> #[trigger] self.edge(a, b) == if Self::same_pair(
                a,
                b,
                i,
                j,
            ) {
                val
            } else {
                before.edge(a, b)
            }
    }

    /// Checks the shape of the matrix, the number of memo cells and the
    /// range of the required pairs.
    pub fn is_well_shaped(&self) -> (r: bool)
        ensures
            r == self.well_shaped(),
    {
        let n = self.nodes.len();
        if self.edges.len() != n || self.cache_node_satisfied.len() != n {
            return false;
        }
        let mut i: usize = 0;
        while i < n
            invariant
                n == self.nodes@.len(),
                n == self.edges@.len(),
                i <= n,
                forall|x: int| 0 <= x < i ==> (#[trigger] self.edges@[x])@.len() == x + 1,
            decreases n - i,
        {
            if self.edges[i].len() != i + 1 {
                return false;
            }
            i += 1;
        }
        let m = self.pairs.len();
        let mut p: usize = 0;
        while p < m
            invariant
                n == self.nodes@.len(),
                m == self.pairs@.len(),
                p <= m,
                forall|x: int|
                    0 <= x < p ==> (#[trigger] self.pairs@[x]).0 <= self.pairs@[x].1 < n,
            decreases m - p,
        {
            let pair = self.pairs[p];
            if !(pair.0 <= pair.1 && pair.1 < n) {
                return false;
            }
            p += 1;
        }
        true
    }

    /// Creates a new graph: no nodes, no required pairs, every rule off.
    pub fn new() -> (g: Graph)
        ensures
            g.well_shaped(),
            g.nodes@.len() == 0,
            g.pairs@.len() == 0,
            !g.no_triangles && !g.meet_quad && !g.connected && g.commute_quad is None,
            g.cells_clear(),
            g.cache_sound(),
    {
        Graph {
            nodes: Vec::new(),
            edges: Vec::new(),
            pairs: Vec::new(),
            no_triangles: false,
            meet_quad: false,
            connected: false,
            commute_quad: None,
            cache_has_triangles: false,
            cache_connected: false,
            cache_upper_right_disconnected: false,
            cache_commute_quad_satisfied: false,
            cache_node_satisfied: Vec::new(),
        }
    }

    /// Forgets everything the memo cells hold.
    pub fn clear_cache(&mut self)
        requires
            old(self).well_shaped(),
        ensures
            final(self).well_shaped(),
            final(self).same_setup(old(self)),
            final(self).edges == old(self).edges,
            final(self).cells_clear(),
            final(self).cache_sound(),
    {
        self.cache_has_triangles = false;
        self.cache_connected = false;
        self.cache_upper_right_disconnected = false;
        self.cache_commute_quad_satisfied = false;
        let n = self.cache_node_satisfied.len();
        let mut k: usize = 0;
        while k < n
            invariant
                k <= n,
                n == self.cache_node_satisfied@.len(),
                self.well_shaped(),
                self.same_setup(old(self)),
                self.edges == old(self).edges,
                !self.cache_has_triangles && !self.cache_connected
                    && !self.cache_upper_right_disconnected && !self.cache_commute_quad_satisfied,
                forall|x: int| 0 <= x < k ==> !#[trigger] self.cache_node_satisfied@[x],
            decreases n - k,
        {
            self.cache_node_satisfied.set(k, false);
            k += 1;
        }
    }

    /// Whether no memo cell holds anything.
    pub open spec fn cells_clear(&self) -> bool {
        &&& !self.cache_has_triangles
        &&& !self.cache_connected
        &&& !self.cache_upper_right_disconnected
        &&& !self.cache_commute_quad_satisfied
        &&& forall|x: int|
            0 <= x < self.cache_node_satisfied@.len() ==> !#[trigger] self.cache_node_satisfied@[x]
    }

    /// Adds a node description. The matrix gains a row of undecided edges and
    /// the memo cells are cleared.
    pub fn push(&mut self, node: Node)
        requires
            old(self).well_shaped(),
        ensures
            final(self).well_shaped(),
            final(self).nodes@ == old(self).nodes@.push(node),
            final(self).pairs == old(self).pairs,
            final(self).no_triangles == old(self).no_triangles,
            final(self).meet_quad == old(self).meet_quad,
            final(self).connected == old(self).connected,
            final(self).commute_quad == old(self).commute_quad,
            final(self).cells_clear(),
            final(self).cache_sound(),
            forall|a: int, b: int|
                0 <= a < old(self).size() && 0 <= b < old(self).size() ==> #[trigger] final(self).edge(a, b)
                    == old(self).edge(a, b),
            forall|a: int|
                0 <= a <= old(self).size() ==> #[trigger] final(self).edge(a, old(self).size())
                    == EMPTY_EDGE && final(self).edge(old(self).size(), a) == EMPTY_EDGE,
    {
        self.clear_cache();
        let n = self.nodes.len();
        let mut row: Vec<Color> = Vec::new();
        let mut k: usize = 0;
        while k < n
            invariant
                k <= n,
                row@.len() == k,
                forall|x: int| 0 <= x < k ==> #[trigger] row@[x] == EMPTY_EDGE,
            decreases n - k,
        {
            row.push(EMPTY_EDGE);
            k += 1;
        }
        row.push(EMPTY_EDGE);
        self.nodes.push(node);
        self.edges.push(row);
        self.cache_node_satisfied.push(false);
    }

    /// Adds a pair constraint: the pair `{i, j}` must end with a concrete edge.
    pub fn push_pair(&mut self, pos: (usize, usize))
        requires
            old(self).well_shaped(),
            pos.0 < old(self).size(),
            pos.1 < old(self).size(),
        ensures
            final(self).well_shaped(),
            final(self).pairs@ == old(self).pairs@.push(
                if pos.0 <= pos.1 {
                    (pos.0, pos.1)
                } else {
                    (pos.1, pos.0)
                },
            ),
            final(self).nodes == old(self).nodes,
            final(self).edges == old(self).edges,
            final(self).no_triangles == old(self).no_triangles,
            final(self).meet_quad == old(self).meet_quad,
            final(self).connected == old(self).connected,
            final(self).commute_quad == old(self).commute_quad,
            final(self).cache_has_triangles == old(self).cache_has_triangles,
            final(self).cache_connected == old(self).cache_connected,
            final(self).cache_upper_right_disconnected == old(self).cache_upper_right_disconnected,
            final(self).cache_commute_quad_satisfied == old(self).cache_commute_quad_satisfied,
            final(self).cache_node_satisfied == old(self).cache_node_satisfied,
            old(self).cache_sound() ==> final(self).cache_sound(),
    {
        let p = if pos.0 <= pos.1 {
            (pos.0, pos.1)
        } else {
            (pos.1, pos.0)
        };
        self.pairs.push(p);
        proof {
            old(self).same_edges_same_facts(self);
        }
    }

    /// Reads the color of the pair `{pos.0, pos.1}`.
    pub fn get(&self, pos: (usize, usize)) -> (c: Color)
        requires
            self.well_shaped(),
            pos.0 < self.size(),
            pos.1 < self.size(),
        ensures
            c == self.edge(pos.0 as int, pos.1 as int),
    {
        if pos.1 <= pos.0 {
            self.edges[pos.0][pos.1]
        } else {
            self.edges[pos.1][pos.0]
        }
    }

    /// Writes `val` to the pair `{pos.0, pos.1}` and clears the memo cells
    /// that the write may have made stale: with `was` the color before,
    /// the reachability cells when `was != 0 && val < 2`, the quad cell unless
    /// `was == 0 && val == 1`, the triangle cell and the cells of the two end
    /// nodes when `was != 0`.
    pub fn set(&mut self, pos: (usize, usize), val: Color)
        requires
            old(self).well_shaped(),
            pos.0 < old(self).size(),
            pos.1 < old(self).size(),
        ensures
            final(self).recolored(old(self), pos.0 as int, pos.1 as int, val),
            final(self).cells_after_write(old(self), pos.0 as int, pos.1 as int, val),
            old(self).cache_sound() && !(old(self).cache_upper_right_disconnected && old(self).edge(
                pos.0 as int,
                pos.1 as int,
            ) == 1 && val >= 2) ==> final(self).cache_sound(),
    {
        let (hi, lo) = if pos.1 <= pos.0 {
            (pos.0, pos.1)
        } else {
            (pos.1, pos.0)
        };
        let was = self.edges[hi][lo];
        self.edges[hi][lo] = val;
        if was != 0 && val < 2 {
            self.cache_connected = false;
            self.cache_upper_right_disconnected = false;
        }
        if !(was == 0 && val == 1) {
            self.cache_commute_quad_satisfied = false;
        }
        if was != 0 {
            self.cache_has_triangles = false;
            self.cache_node_satisfied.set(pos.0, false);
            self.cache_node_satisfied.set(pos.1, false);
        }
        proof {
            if old(self).cache_sound() && !(old(self).cache_upper_right_disconnected && old(self).edge(pos.0 as int, pos.1 as int) == 1 && val >= 2) {
                old(self).write_keeps_cache_sound(self, pos.0 as int, pos.1 as int, val);
            }
        }
    }

    /// The memo cells of `self` are those of `before` after the write of
    /// `val` to `{i, j}`: each cell is either kept or cleared, by the color
    /// the pair had before.
    pub open spec fn cells_after_write(&self, before: &Graph, i: int, j: int, val: Color) -> bool {
        let was = before.edge(i, j);
        &&& self.cache_connected == (before.cache_connected && !(was != 0 && val < 2))
        &&& self.cache_upper_right_disconnected == (before.cache_upper_right_disconnected && !(was
            != 0 && val < 2))
        &&& self.cache_commute_quad_satisfied == (before.cache_commute_quad_satisfied && was == 0
            && val == 1)
        &&& self.cache_has_triangles == (before.cache_has_triangles && was == 0)
        &&& self.cache_node_satisfied@.len() == before.cache_node_satisfied@.len()
        &&& forall|x: int|
            0 <= x < self.cache_node_satisfied@.len() ==> #[trigger] self.cache_node_satisfied@[x]
                == (before.cache_node_satisfied@[x] && !(was != 0 && (x == i || x == j)))
    }
}

impl Default for Graph {
    fn default() -> (g: Graph)
        ensures
            g.wf(),
            g.nodes@.len() == 0,
            g.pairs@.len() == 0,
            !g.no_triangles && !g.meet_quad && !g.connected && g.commute_quad is None,
            g.cells_clear(),
    {
        Graph::new()
    }
}

} // verus!
