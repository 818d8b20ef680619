//! What holds of the graph operations taken together.

use vstd::prelude::*;
use crate::cache::leftover_is_empty_when_all_used;
use crate::local::first_free;
use crate::model::{Color, Constraint, Graph};
use crate::matching::asked;
use crate::reach::{mark_reduces_pending, pending};
use crate::search::{backtrack_result, Solution};

verus! {

proof fn pending_is_zero_when_all_set(s: Seq<bool>)
    requires
        forall|k: int| 0 <= k < s.len() ==> s[k],
    ensures
        pending(s) == 0,
    decreases s.len(),
{
    if s.len() > 0 {
        pending_is_zero_when_all_set(s.drop_last());
    }
}

proof fn pending_of_clear(s: Seq<bool>)
    requires
        forall|k: int| 0 <= k < s.len() ==> !s[k],
    ensures
        pending(s) == s.len(),
    decreases s.len(),
{
    if s.len() > 0 {
        pending_of_clear(s.drop_last());
    }
}

impl Graph {
    /// The color of a pair does not depend on the order of its two ends.
    pub proof fn edge_is_symmetric(&self, i: int, j: int)
        ensures
            self.edge(i, j) == self.edge(j, i),
    {
    }

    /// Writing a legal color keeps every set memo cell true, keeps every
    /// satisfied node satisfied and keeps what is reachable; writing the
    /// no-edge color adds no triangle and changes the verdict of no quad rule.
    pub proof fn legal_write_is_sound(&self, after: &Graph, i: int, j: int, val: Color)
        requires
            self.wf(),
            0 <= i < self.size(),
            0 <= j < self.size(),
            self.candidate(i, j, val),
            after.recolored(self, i, j, val),
            after.cells_after_write(self, i, j, val),
        ensures
            after.wf(),
            forall|x: int|
                0 <= x < self.size() && (#[trigger] self.unmet(x)).len() == 0 ==> after.unmet(
                    x,
                ).len() == 0,
            self.all_reachable() ==> after.all_reachable(),
            self.triangles_exist() ==> after.triangles_exist(),
            val == 1 ==> after.triangles_exist() == self.triangles_exist(),
            val == 1 ==> forall|commute: bool|
                #[trigger] after.quads_agree(commute) == self.quads_agree(commute),
    {
        assert(self.edge(i, j) == 0);
        assert(after.edge(i, j) == val);
        self.write_keeps_cache_sound(after, i, j, val);
        assert forall|x: int, y: int|
            0 <= x < self.size() && 0 <= y < self.size() && #[trigger] self.concrete(
                x,
                y,
            ) implies after.edge(x, y) == self.edge(x, y) by {
            assert(after.edge(x, y) == if Self::same_pair(x, y, i, j) {
                val
            } else {
                self.edge(x, y)
            });
            assert(Self::same_pair(x, y, i, j) ==> self.edge(x, y) == 0);
        }
        assert(self.edges_kept_by(after));
        self.more_edges_keep_shapes(after);
        assert forall|x: int|
            0 <= x < self.size() && (#[trigger] self.unmet(x)).len() == 0 implies after.unmet(
            x,
        ).len() == 0 by {
            assert(self.row_kept_by(after, x));
            self.satisfied_stays(after, x);
        }
        if val == 1 {
            assert forall|x: int, y: int|
                0 <= x < self.size() && 0 <= y < self.size() && #[trigger] after.concrete(
                    x,
                    y,
                ) implies self.edge(x, y) == after.edge(x, y) by {
                assert(after.edge(x, y) == if Self::same_pair(x, y, i, j) {
                    val
                } else {
                    self.edge(x, y)
                });
            }
            assert(after.edges_kept_by(self));
            after.more_edges_keep_shapes(self);
            assert forall|commute: bool| #[trigger]
                after.quads_agree(commute) == self.quads_agree(commute) by {
                if self.quads_agree(commute) {
                    self.fewer_edges_keep_quads(after, commute);
                }
                if after.quads_agree(commute) {
                    after.fewer_edges_keep_quads(self, commute);
                }
            }
        }
    }

    /// Writing the same color to the same pair a second time changes no
    /// color, so a search from the graph written twice ends as a search
    /// from the graph written once.
    pub proof fn second_write_changes_nothing(
        &self,
        once: &Graph,
        twice: &Graph,
        i: int,
        j: int,
        val: Color,
        debug: bool,
        nap: Option<u64>,
    )
        requires
            self.well_shaped(),
            0 <= i < self.size(),
            0 <= j < self.size(),
            once.recolored(self, i, j, val),
            twice.recolored(once, i, j, val),
        ensures
            twice.rows() == once.rows(),
            twice.same_setup(once),
            backtrack_result(
                twice.node_models(),
                twice.rows(),
                twice.pairs@,
                twice.rules(),
                debug,
                nap,
            ) == backtrack_result(
                once.node_models(),
                once.rows(),
                once.pairs@,
                once.rules(),
                debug,
                nap,
            ),
    {
        assert(once.edge(i, j) == val);
        assert forall|x: int| 0 <= x < once.size() implies #[trigger] twice.rows()[x]
            == once.rows()[x] by {
            assert forall|y: int| 0 <= y <= x implies twice.edges@[x]@[y] == once.edges@[x]@[y] by {
                assert(twice.edge(x, y) == if Self::same_pair(x, y, i, j) {
                    val
                } else {
                    once.edge(x, y)
                });
                assert(Self::same_pair(x, y, i, j) ==> once.edge(x, y) == once.edge(i, j));
            }
            assert(twice.edges@[x]@ =~= once.edges@[x]@);
        }
        assert(twice.rows() =~= once.rows());
    }

    /// After its concrete edges to the nodes `0 .. upto`, a node has at
    /// least as many unclaimed slots as its template has entries beyond `upto`.
    pub proof fn each_edge_claims_one_slot(&self, i: int, upto: int)
        requires
            self.well_shaped(),
            0 <= i < self.size(),
            0 <= upto,
        ensures
            self.matched(i, upto).len() == self.nodes@[i].edges@.len(),
            pending(self.matched(i, upto)) + upto >= self.nodes@[i].edges@.len(),
        decreases upto,
    {
        let want = self.nodes@[i].edges@;
        self.matched_len(i, upto);
        if upto == 0 {
            pending_of_clear(self.matched(i, 0));
        } else {
            self.each_edge_claims_one_slot(i, upto - 1);
            let before = self.matched(i, upto - 1);
            if self.concrete(i, upto - 1) {
                let c = self.seen(i, upto - 1);
                crate::cache::first_free_is_first(want, before, c, 0);
                let k = first_free(want, before, c, 0);
                if k < want.len() {
                    mark_reduces_pending(before, k);
                }
            }
        }
    }

    /// A node whose template has more entries than the graph has nodes is
    /// never satisfied, so no search from such a graph returns a solution.
    pub proof fn crowded_template_has_no_solution(
        &self,
        i: int,
        found: Option<(Seq<Seq<Color>>, u64)>,
        r: Option<Solution>,
    )
        requires
            self.well_shaped(),
            0 <= i < self.size(),
            self.nodes@[i].edges@.len() > self.size(),
            self.settled(found, r),
        ensures
            !self.solved(),
            r is None,
    {
        self.crowded_template_is_unmet(i);
        if r is Some {
            let g = r->0.puzzle;
            g.crowded_template_is_unmet(i);
            assert(g.unmet(i).len() > 0);
        }
    }

    /// A node whose template has more entries than the graph has nodes has
    /// an unmet entry, whatever the colors are.
    pub proof fn crowded_template_is_unmet(&self, i: int)
        requires
            self.well_shaped(),
            0 <= i < self.size(),
            self.nodes@[i].edges@.len() > self.size(),
        ensures
            self.unmet(i).len() > 0,
    {
        let want = self.nodes@[i].edges@;
        let used = self.matched(i, self.size());
        self.each_edge_claims_one_slot(i, self.size());
        leftover_is_empty_when_all_used(want, used, want.len() as int);
        if self.unmet(i).len() == 0 {
            pending_is_zero_when_all_set(used);
        }
    }
    /// How many of the nodes `0 .. upto` have the node color `color`.
    pub open spec fn colored(&self, color: Color, upto: int) -> nat
        decreases upto,
    {
        if upto <= 0 {
            0
        } else {
            self.colored(color, upto - 1) + if self.nodes@[upto - 1].color == color {
                1nat
            } else {
                0nat
            }
        }
    }

    /// How many of the nodes `0 .. upto` other than `i` have the node color `color`.
    pub open spec fn colored_others(&self, i: int, color: Color, upto: int) -> nat
        decreases upto,
    {
        if upto <= 0 {
            0
        } else {
            self.colored_others(i, color, upto - 1) + if upto - 1 != i && self.nodes@[upto
                - 1].color == color {
                1nat
            } else {
                0nat
            }
        }
    }

    /// No more edges supply a template entry than there are nodes of the
    /// color it asks for; than other such nodes, where the node is not
    /// joined to itself.
    pub proof fn supply_is_bounded(&self, i: int, c: Constraint, upto: int)
        requires
            self.well_shaped(),
            0 <= i < self.size(),
            0 <= upto <= self.size(),
        ensures
            self.supplied(i, c, upto) <= self.colored(c.node, upto),
            !self.concrete(i, i) ==> self.supplied(i, c, upto) <= self.colored_others(
                i,
                c.node,
                upto,
            ),
        decreases upto,
    {
        if upto > 0 {
            self.supply_is_bounded(i, c, upto - 1);
        }
    }

    /// A node that is not joined to itself and whose template asks for more
    /// edges of one kind than there are other nodes of the wanted color is
    /// never satisfied.
    pub proof fn scarce_color_is_unmet(&self, i: int, k: int)
        requires
            self.well_shaped(),
            0 <= i < self.size(),
            0 <= k < self.nodes@[i].edges@.len(),
            !self.concrete(i, i),
            asked(
                self.nodes@[i].edges@,
                self.nodes@[i].edges@[k],
                self.nodes@[i].edges@.len() as int,
            ) > self.colored_others(i, self.nodes@[i].edges@[k].node, self.size()),
        ensures
            self.unmet(i).len() > 0,
            !self.solved(),
    {
        self.supply_is_bounded(i, self.nodes@[i].edges@[k], self.size());
        self.satisfied_iff_enough_supplied(i);
    }

    /// A graph with a node whose template asks for more edges of one kind
    /// than there are nodes of the wanted color has no solution: no search
    /// from it returns one.
    pub proof fn scarce_color_has_no_solution(
        &self,
        i: int,
        k: int,
        found: Option<(Seq<Seq<Color>>, u64)>,
        r: Option<Solution>,
    )
        requires
            self.well_shaped(),
            0 <= i < self.size(),
            0 <= k < self.nodes@[i].edges@.len(),
            asked(
                self.nodes@[i].edges@,
                self.nodes@[i].edges@[k],
                self.nodes@[i].edges@.len() as int,
            ) > self.colored(self.nodes@[i].edges@[k].node, self.size()),
            self.settled(found, r),
        ensures
            r is None,
    {
        if r is Some {
            let g = r->0.puzzle;
            let c = self.nodes@[i].edges@[k];
            g.supply_is_bounded(i, c, g.size());
            g.satisfied_iff_enough_supplied(i);
            g.same_nodes_same_colored(self, c.node, self.size());
            assert(g.unmet(i).len() > 0);
        }
    }

    /// Graphs with the same nodes have as many nodes of each color.
    pub proof fn same_nodes_same_colored(&self, other: &Graph, color: Color, upto: int)
        requires
            self.nodes == other.nodes,
        ensures
            self.colored(color, upto) == other.colored(color, upto),
        decreases upto,
    {
        if upto > 0 {
            self.same_nodes_same_colored(other, color, upto - 1);
        }
    }
    /// In a graph without triangles, a node that lies on a cycle of length
    /// 3 or 4 lies on a quad.
    pub proof fn without_triangles_short_cycles_are_quads(&self, i: int)
        requires
            !self.triangles_exist(),
            self.meets(i),
        ensures
            exists|j: int, k: int, l: int| #[trigger] self.quad(i, j, k, l),
    {
        let (j, k, l) = choose|j: int, k: int, l: int| #[trigger] self.short_cycle(i, j, k, l);
        if self.corner(i, j, k) {
            self.edge_is_symmetric(i, j);
            self.edge_is_symmetric(j, k);
            self.edge_is_symmetric(k, i);
            if i < j && j < k {
                assert(self.triangle(i, j, k));
            } else if i < k && k < j {
                assert(self.triangle(i, k, j));
            } else if j < i && i < k {
                assert(self.triangle(j, i, k));
            } else if j < k && k < i {
                assert(self.triangle(j, k, i));
            } else if k < i && i < j {
                assert(self.triangle(k, i, j));
            } else {
                assert(self.triangle(k, j, i));
            }
        }
        assert(self.quad(i, j, k, l));
    }
    /// A solved graph accepts its own matrix: a search that ends with the
    /// matrix it started from hands the solved graph back.
    pub proof fn solved_graph_accepts_its_matrix(&self)
        requires
            self.well_shaped(),
            self.solved(),
        ensures
            self.accepts(self.rows()),
    {
        assert(self.same_setup(self) && self.well_shaped() && self.rows() == self.rows()
            && self.solved());
    }
}

} // verus!
