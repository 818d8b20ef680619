//! The memo cells: what a set cell claims, and why writes keep the claims true.

use vstd::prelude::*;
use crate::local::{first_free, leftover};
use crate::model::{Color, Constraint, Graph};

verus! {

/// `first_free` returns a slot at or after `from` that is unused and asks
/// for `c`, with no such slot between `from` and it, or the length.
pub proof fn first_free_is_first(want: Seq<Constraint>, used: Seq<bool>, c: Constraint, from: int)
    requires
        0 <= from <= want.len(),
        used.len() == want.len(),
    ensures
        from <= first_free(want, used, c, from) <= want.len(),
        first_free(want, used, c, from) < want.len() ==> !used[first_free(want, used, c, from)]
            && want[first_free(want, used, c, from)] == c,
        forall|m: int|
            from <= m < first_free(want, used, c, from) ==> used[m] || #[trigger] want[m] != c,
    decreases want.len() - from,
{
    if from < want.len() && !(!used[from] && want[from] == c) {
        first_free_is_first(want, used, c, from + 1);
    }
}

/// The unused entries are none exactly when every slot is used.
pub proof fn leftover_is_empty_when_all_used(want: Seq<Constraint>, used: Seq<bool>, upto: int)
    requires
        0 <= upto <= want.len(),
        used.len() == want.len(),
    ensures
        leftover(want, used, upto).len() == 0 <==> forall|k: int| 0 <= k < upto ==> used[k],
    decreases upto,
{
    if upto > 0 {
        leftover_is_empty_when_all_used(want, used, upto - 1);
        if leftover(want, used, upto).len() == 0 {
            assert(used[upto - 1]);
        }
    }
}

impl Graph {
    /// Every memo cell that is set tells the truth about the current edges.
    pub open spec fn cache_sound(&self) -> bool {
        &&& self.cache_has_triangles ==> self.triangles_exist()
        &&& self.cache_connected ==> self.all_reachable()
        &&& self.cache_upper_right_disconnected ==> self.upper_right_cut()
        &&& self.cache_commute_quad_satisfied ==> (self.commute_quad is Some && self.quads_agree(
            self.commute_quad->0,
        ))
        &&& forall|i: int|
            0 <= i < self.size() ==> (#[trigger] self.cache_node_satisfied@[i] ==> self.unmet(
                i,
            ).len() == 0)
    }

    /// The graph is well shaped and its memo cells are sound.
    pub open spec fn wf(&self) -> bool {
        self.well_shaped() && self.cache_sound()
    }

    /// Whether `other` has the nodes of `self` and every concrete edge of `self`.
    pub open spec fn edges_kept_by(&self, other: &Graph) -> bool {
        &&& self.well_shaped()
        &&& other.well_shaped()
        &&& self.nodes == other.nodes
        &&& forall|x: int, y: int|
            0 <= x < self.size() && 0 <= y < self.size() && #[trigger] self.concrete(x, y)
                ==> other.concrete(x, y)
    }

    /// Whether `other` has the nodes of `self` and every concrete edge that
    /// node `x` has in `self`, with its color.
    pub open spec fn row_kept_by(&self, other: &Graph, x: int) -> bool {
        &&& self.well_shaped()
        &&& other.well_shaped()
        &&& self.nodes == other.nodes
        &&& 0 <= x < self.size()
        &&& forall|y: int|
            0 <= y < self.size() && #[trigger] self.concrete(x, y) ==> other.edge(x, y)
                == self.edge(x, y)
    }

    /// Whether `self` and `other` have the same nodes and the same color on every pair.
    pub open spec fn same_edges(&self, other: &Graph) -> bool {
        &&& self.well_shaped()
        &&& other.well_shaped()
        &&& self.nodes == other.nodes
        &&& forall|x: int, y: int|
            0 <= x < self.size() && 0 <= y < self.size() ==> #[trigger] self.edge(x, y)
                == other.edge(x, y)
    }

    /// The mask of claimed slots has one entry per template entry.
    pub proof fn matched_len(&self, i: int, upto: int)
        requires
            self.well_shaped(),
            0 <= i < self.size(),
        ensures
            self.matched(i, upto).len() == self.nodes@[i].edges@.len(),
        decreases upto,
    {
        if upto > 0 {
            self.matched_len(i, upto - 1);
            first_free_is_first(
                self.nodes@[i].edges@,
                self.matched(i, upto - 1),
                self.seen(i, upto - 1),
                0,
            );
        }
    }

    /// A slot that is claimed stays claimed when the node gains concrete edges.
    pub proof fn matched_only_grows(&self, other: &Graph, x: int, upto: int)
        requires
            self.row_kept_by(other, x),
            0 <= upto <= self.size(),
        ensures
            self.matched(x, upto).len() == self.nodes@[x].edges@.len(),
            other.matched(x, upto).len() == self.nodes@[x].edges@.len(),
            forall|k: int|
                0 <= k < self.nodes@[x].edges@.len() && self.matched(x, upto)[k] ==> other.matched(
                    x,
                    upto,
                )[k],
        decreases upto,
    {
        self.matched_len(x, upto);
        other.matched_len(x, upto);
        if upto > 0 {
            self.matched_only_grows(other, x, upto - 1);
            let want = self.nodes@[x].edges@;
            let y = upto - 1;
            let mine = self.matched(x, y);
            let theirs = other.matched(x, y);
            if other.concrete(x, y) {
                let c = other.seen(x, y);
                first_free_is_first(want, theirs, c, 0);
                if self.concrete(x, y) {
                    assert(self.seen(x, y) == c);
                    first_free_is_first(want, mine, c, 0);
                }
            } else {
                assert(!self.concrete(x, y));
            }
        }
    }

    /// A node whose template is fully matched stays so when it gains concrete edges.
    pub proof fn satisfied_stays(&self, other: &Graph, x: int)
        requires
            self.row_kept_by(other, x),
            self.unmet(x).len() == 0,
        ensures
            other.unmet(x).len() == 0,
    {
        let want = self.nodes@[x].edges@;
        self.matched_only_grows(other, x, self.size());
        leftover_is_empty_when_all_used(want, self.matched(x, self.size()), want.len() as int);
        leftover_is_empty_when_all_used(want, other.matched(x, self.size()), want.len() as int);
    }

    /// What can be reached stays reachable when concrete edges are added.
    pub proof fn reach_carries(&self, other: &Graph, steps: nat, v: int)
        requires
            self.edges_kept_by(other),
            0 <= v < self.size(),
            self.reach(steps, v),
        ensures
            other.reach(steps, v),
        decreases steps,
    {
        if steps > 0 {
            if self.reach((steps - 1) as nat, v) {
                self.reach_carries(other, (steps - 1) as nat, v);
            } else {
                let u = choose|u: int|
                    0 <= u < self.size() && self.reach((steps - 1) as nat, u)
                        && #[trigger] self.concrete(u, v);
                self.reach_carries(other, (steps - 1) as nat, u);
                assert(other.concrete(u, v));
            }
        }
    }

    /// Triangles and connectedness survive the addition of concrete edges.
    pub proof fn more_edges_keep_shapes(&self, other: &Graph)
        requires
            self.edges_kept_by(other),
        ensures
            self.triangles_exist() ==> other.triangles_exist(),
            self.all_reachable() ==> other.all_reachable(),
    {
        if self.triangles_exist() {
            let (i, j, k) = choose|i: int, j: int, k: int| #[trigger] self.triangle(i, j, k);
            assert(other.triangle(i, j, k));
        }
        if self.all_reachable() {
            assert forall|v: int| 0 <= v < other.size() implies #[trigger] other.reachable(v) by {
                assert(self.reachable(v));
                let s = choose|s: nat| #[trigger] self.reach(s, v);
                self.reach_carries(other, s, v);
            }
        }
    }

    /// The quad rule still holds when no concrete edge is added or recolored.
    pub proof fn fewer_edges_keep_quads(&self, other: &Graph, commute: bool)
        requires
            self.well_shaped(),
            other.well_shaped(),
            self.nodes == other.nodes,
            forall|x: int, y: int|
                0 <= x < self.size() && 0 <= y < self.size() && #[trigger] other.concrete(x, y)
                    ==> self.edge(x, y) == other.edge(x, y),
            self.quads_agree(commute),
        ensures
            other.quads_agree(commute),
    {
        assert forall|a: int, b: int, c: int, d: int| #[trigger]
            other.quad_passes(commute, a, b, c, d) by {
            if other.quad(a, b, c, d) {
                assert(self.quad(a, b, c, d));
                assert(self.quad_passes(commute, a, b, c, d));
            }
        }
    }

    /// Two graphs with the same nodes and the same colors agree on every
    /// predicate over nodes and edges, whatever their memo cells hold.
    pub proof fn same_edges_same_facts(&self, other: &Graph)
        requires
            self.same_edges(other),
        ensures
            self.triangles_exist() == other.triangles_exist(),
            self.all_reachable() == other.all_reachable(),
            self.upper_right_cut() == other.upper_right_cut(),
            forall|commute: bool| #[trigger] self.quads_agree(commute) == other.quads_agree(commute),
            forall|i: int| 0 <= i < self.size() ==> #[trigger] self.unmet(i) == other.unmet(i),
            forall|i: int| 0 <= i < self.size() ==> #[trigger] self.meets(i) == other.meets(i),
    {
        self.more_edges_keep_shapes(other);
        other.more_edges_keep_shapes(self);
        if self.upper_right_cut() {
            assert forall|a: int, b: int|
                0 <= a < other.size() / 2 && other.size() / 2 <= b < other.size() implies #[trigger] other.edge(
                a,
                b,
            ) == 1 by {
                assert(self.edge(a, b) == 1);
            }
        }
        if other.upper_right_cut() {
            assert forall|a: int, b: int|
                0 <= a < self.size() / 2 && self.size() / 2 <= b < self.size() implies #[trigger] self.edge(
                a,
                b,
            ) == 1 by {
                assert(other.edge(a, b) == 1);
            }
        }
        assert forall|commute: bool| #[trigger]
            self.quads_agree(commute) == other.quads_agree(commute) by {
            if self.quads_agree(commute) {
                self.fewer_edges_keep_quads(other, commute);
            }
            if other.quads_agree(commute) {
                other.fewer_edges_keep_quads(self, commute);
            }
        }
        assert forall|i: int| 0 <= i < self.size() implies #[trigger] self.unmet(i) == other.unmet(
            i,
        ) by {
            self.matched_only_grows(other, i, self.size());
            other.matched_only_grows(self, i, self.size());
            assert(self.matched(i, self.size()) =~= other.matched(i, self.size()));
        }
        assert forall|i: int| 0 <= i < self.size() implies #[trigger] self.meets(i) == other.meets(
            i,
        ) by {
            if self.meets(i) {
                let (j, k, l) = choose|j: int, k: int, l: int| #[trigger]
                    self.short_cycle(i, j, k, l);
                assert(other.short_cycle(i, j, k, l));
            }
            if other.meets(i) {
                let (j, k, l) = choose|j: int, k: int, l: int| #[trigger]
                    other.short_cycle(i, j, k, l);
                assert(self.short_cycle(i, j, k, l));
            }
        }
    }

    /// Sound memo cells stay sound across a write that clears the cells as
    /// `set` does. The one write left out puts a concrete color on a pair
    /// that was a no-edge while the upper right cell is set.
    pub proof fn write_keeps_cache_sound(&self, after: &Graph, i: int, j: int, val: Color)
        requires
            self.wf(),
            0 <= i < self.size(),
            0 <= j < self.size(),
            after.recolored(self, i, j, val),
            after.cells_after_write(self, i, j, val),
            !(self.cache_upper_right_disconnected && self.edge(i, j) == 1 && val >= 2),
        ensures
            after.wf(),
    {
        let was = self.edge(i, j);
        assert(after.edge(i, j) == val);
        if was == 0 || val >= 2 {
            assert(self.edges_kept_by(after)) by {
                assert forall|x: int, y: int|
                    0 <= x < self.size() && 0 <= y < self.size() && #[trigger] self.concrete(
                        x,
                        y,
                    ) implies after.concrete(x, y) by {
                    assert(after.edge(x, y) == if Self::same_pair(x, y, i, j) {
                        val
                    } else {
                        self.edge(x, y)
                    });
                    assert(Self::same_pair(x, y, i, j) ==> self.edge(x, y) == was);
                }
            }
            self.more_edges_keep_shapes(after);
        }
        if after.cache_upper_right_disconnected {
            assert forall|a: int, b: int|
                0 <= a < after.size() / 2 && after.size() / 2 <= b < after.size() implies #[trigger] after.edge(
                a,
                b,
            ) == 1 by {
                assert(self.edge(a, b) == 1);
                assert(Self::same_pair(a, b, i, j) ==> self.edge(a, b) == was);
            }
        }
        if after.cache_commute_quad_satisfied {
            assert forall|x: int, y: int|
                0 <= x < self.size() && 0 <= y < self.size() && #[trigger] after.concrete(
                    x,
                    y,
                ) implies self.edge(x, y) == after.edge(x, y) by {
                assert(after.edge(x, y) == if Self::same_pair(x, y, i, j) {
                    val
                } else {
                    self.edge(x, y)
                });
            }
            self.fewer_edges_keep_quads(after, self.commute_quad->0);
        }
        assert forall|x: int| 0 <= x < after.size() && #[trigger] after.cache_node_satisfied@[x] implies after.unmet(
            x,
        ).len() == 0 by {
            assert(self.cache_node_satisfied@[x]);
            assert(self.row_kept_by(after, x)) by {
                assert forall|y: int|
                    0 <= y < self.size() && #[trigger] self.concrete(x, y) implies after.edge(x, y)
                    == self.edge(x, y) by {
                    assert(after.edge(x, y) == if Self::same_pair(x, y, i, j) {
                        val
                    } else {
                        self.edge(x, y)
                    });
                    assert(Self::same_pair(x, y, i, j) ==> self.edge(x, y) == was);
                }
            }
            self.satisfied_stays(after, x);
        }
    }

    /// Recomputes every predicate and records each that holds in its memo cell.
    pub fn refresh_cache(&mut self)
        requires
            old(self).wf(),
        ensures
            final(self).wf(),
            final(self).same_setup(old(self)),
            final(self).edges == old(self).edges,
            final(self).cache_has_triangles == final(self).triangles_exist(),
            final(self).cache_connected == final(self).all_reachable(),
            final(self).cache_upper_right_disconnected == final(self).upper_right_cut(),
            final(self).cache_commute_quad_satisfied == (final(self).commute_quad is Some && final(self).quads_agree(final(self).commute_quad->0)),
            forall|i: int|
                0 <= i < final(self).size() ==> #[trigger] final(self).cache_node_satisfied@[i] == (
                final(self).unmet(i).len() == 0),
    {
        let triangles = self.has_triangles();
        let connected = self.is_connected();
        let cut = self.is_upper_right_disconnected();
        let quads = match self.commute_quad {
            Some(val) => self.commute_quad_satisfied(val),
            None => false,
        };
        let n = self.nodes.len();
        let mut cells: Vec<bool> = Vec::new();
        let mut i: usize = 0;
        while i < n
            invariant
                self.wf(),
                n == self.size(),
                i <= n,
                cells@.len() == i,
                forall|x: int| 0 <= x < i ==> #[trigger] cells@[x] == (self.unmet(x).len() == 0),
            decreases n - i,
        {
            cells.push(self.node_satisfied(i).len() == 0);
            i += 1;
        }
        self.cache_has_triangles = triangles;
        self.cache_connected = connected;
        self.cache_upper_right_disconnected = cut;
        self.cache_commute_quad_satisfied = quads;
        self.cache_node_satisfied = cells;
        proof {
            assert(final(self).same_edges(old(self)));
            final(self).same_edges_same_facts(old(self));
        }
    }
}

} // verus!
