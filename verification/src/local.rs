//! Local satisfaction: which template entries of a node are still unmet.

use vstd::prelude::*;
use crate::model::{Constraint, Graph};

verus! {

/// The first slot at or after `from` that is unused and asks for `c`, or
/// `want.len()` when there is none.
pub open spec fn first_free(want: Seq<Constraint>, used: Seq<bool>, c: Constraint, from: int) -> int
    decreases want.len() - from,
{
    if from < 0 || from >= want.len() {
        want.len() as int
    } else if !used[from] && want[from] == c {
        from
    } else {
        first_free(want, used, c, from + 1)
    }
}

/// The mask after an incident edge described by `c` has claimed its slot:
/// the first unused slot that asks for `c`, if there is one.
pub open spec fn claim(want: Seq<Constraint>, used: Seq<bool>, c: Constraint) -> Seq<bool> {
    let k = first_free(want, used, c, 0);
    if k < want.len() {
        used.update(k, true)
    } else {
        used
    }
}

/// The entries among the first `upto` of `want` whose slot is unused, in order.
pub open spec fn leftover(want: Seq<Constraint>, used: Seq<bool>, upto: int) -> Seq<Constraint>
    decreases upto,
{
    if upto <= 0 {
        Seq::empty()
    } else if used[upto - 1] {
        leftover(want, used, upto - 1)
    } else {
        leftover(want, used, upto - 1).push(want[upto - 1])
    }
}

impl Graph {
    /// What node `i` sees along the pair `{i, j}`: the edge's color and the
    /// color of the node at the other end.
    pub open spec fn seen(&self, i: int, j: int) -> Constraint {
        Constraint { edge: self.edge(i, j), node: self.nodes@[j].color }
    }

    /// The slots of node `i`'s template that its concrete edges to the nodes
    /// `0 .. upto` have claimed, each edge in turn claiming the first unused
    /// slot that asks for it.
    pub open spec fn matched(&self, i: int, upto: int) -> Seq<bool>
        decreases upto,
    {
        if upto <= 0 {
            Seq::new(self.nodes@[i].edges@.len(), |k: int| false)
        } else if self.concrete(i, upto - 1) {
            claim(self.nodes@[i].edges@, self.matched(i, upto - 1), self.seen(i, upto - 1))
        } else {
            self.matched(i, upto - 1)
        }
    }

    /// The entries of node `i`'s template that no concrete edge has claimed,
    /// in template order. Empty means that the node is satisfied.
    pub open spec fn unmet(&self, i: int) -> Seq<Constraint> {
        leftover(
            self.nodes@[i].edges@,
            self.matched(i, self.size()),
            self.nodes@[i].edges@.len() as int,
        )
    }

    /// Whether every node's template is fully matched.
    pub open spec fn all_met(&self) -> bool {
        forall|i: int| 0 <= i < self.size() ==> (#[trigger] self.unmet(i)).len() == 0
    }

    /// Whether every required pair carries a concrete edge.
    pub open spec fn pairs_met(&self) -> bool {
        forall|p: int|
            0 <= p < self.pairs@.len() ==> self.concrete(
                (#[trigger] self.pairs@[p]).1 as int,
                self.pairs@[p].0 as int,
            )
    }
    /// Returns the template entries of node `i` that are still unmet, in
    /// template order. If the returned list is empty, the node is satisfied.
    pub fn node_satisfied(&self, i: usize) -> (res: Vec<Constraint>)
        requires
            self.wf(),
            i < self.size(),
        ensures
            res@ == self.unmet(i as int),
    {
        if self.cache_node_satisfied[i] {
            let res: Vec<Constraint> = Vec::new();
            assert(res@ =~= self.unmet(i as int));
            return res;
        }
        let n = self.nodes.len();
        let slots = self.nodes[i].edges.len();
        let ghost want = self.nodes@[i as int].edges@;
        let mut used: Vec<bool> = Vec::new();
        let mut t: usize = 0;
        while t < slots
            invariant
                t <= slots,
                used@.len() == t,
                forall|x: int| 0 <= x < t ==> !#[trigger] used@[x],
            decreases slots - t,
        {
            used.push(false);
            t += 1;
        }
        assert(used@ =~= self.matched(i as int, 0));
        let mut j: usize = 0;
        while j < n
            invariant
                self.wf(),
                i < n,
                n == self.size(),
                j <= n,
                want == self.nodes@[i as int].edges@,
                slots == want.len(),
                used@.len() == slots,
                used@ == self.matched(i as int, j as int),
            decreases n - j,
        {
            let e = self.get((i, j));
            if e >= 2 {
                let c = Constraint { edge: e, node: self.nodes[j].color };
                let mut k: usize = 0;
                let mut found = false;
                while k < slots && !found
                    invariant
                        i < self.nodes@.len(),
                        want == self.nodes@[i as int].edges@,
                        slots == want.len(),
                        used@.len() == slots,
                        k <= slots,
                        first_free(want, used@, c, 0) == first_free(want, used@, c, k as int),
                        found ==> k < slots && !used@[k as int] && want[k as int] == c,
                    decreases slots - k + if found { 0int } else { 1int },
                {
                    if !used[k] && self.nodes[i].edges[k] == c {
                        found = true;
                    } else {
                        k += 1;
                    }
                }
                assert(first_free(want, used@, c, 0) == k);
                if found {
                    used.set(k, true);
                }
            }
            j += 1;
        }
        let mut res: Vec<Constraint> = Vec::new();
        let mut k: usize = 0;
        while k < slots
            invariant
                i < self.nodes@.len(),
                want == self.nodes@[i as int].edges@,
                slots == want.len(),
                used@.len() == slots,
                k <= slots,
                res@ == leftover(want, used@, k as int),
            decreases slots - k,
        {
            if !used[k] {
                res.push(self.nodes[i].edges[k]);
            }
            k += 1;
        }
        res
    }

    /// Returns `true` if all nodes are satisfied.
    pub fn all_satisfied(&self) -> (r: bool)
        requires
            self.wf(),
        ensures
            r == self.all_met(),
    {
        let n = self.nodes.len();
        let mut i: usize = 0;
        while i < n
            invariant
                self.wf(),
                n == self.size(),
                i <= n,
                forall|x: int| 0 <= x < i ==> (#[trigger] self.unmet(x)).len() == 0,
            decreases n - i,
        {
            if self.node_satisfied(i).len() != 0 {
                return false;
            }
            i += 1;
        }
        true
    }

    /// Returns `true` if all pair constraints are satisfied.
    pub fn pairs_satisfied(&self) -> (r: bool)
        requires
            self.wf(),
        ensures
            r == self.pairs_met(),
    {
        let m = self.pairs.len();
        let mut p: usize = 0;
        while p < m
            invariant
                self.wf(),
                m == self.pairs@.len(),
                p <= m,
                forall|x: int|
                    0 <= x < p ==> self.concrete(
                        (#[trigger] self.pairs@[x]).1 as int,
                        self.pairs@[x].0 as int,
                    ),
            decreases m - p,
        {
            let pair = self.pairs[p];
            if self.get((pair.1, pair.0)) < 2 {
                return false;
            }
            p += 1;
        }
        true
    }
}

} // verus!
