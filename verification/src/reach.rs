//! Connectedness: the closure of node 0 under concrete edges.

use vstd::prelude::*;
use crate::model::Graph;

verus! {

/// How many entries of `s` are `false`.
pub open spec fn pending(s: Seq<bool>) -> nat
    decreases s.len(),
{
    if s.len() == 0 {
        0
    } else {
        pending(s.drop_last()) + if s.last() {
            0nat
        } else {
            1nat
        }
    }
}

/// Setting an entry that was `false` leaves one `false` entry fewer.
pub proof fn mark_reduces_pending(s: Seq<bool>, i: int)
    requires
        0 <= i < s.len(),
        !s[i],
    ensures
        pending(s.update(i, true)) + 1 == pending(s),
    decreases s.len(),
{
    let t = s.update(i, true);
    if i == s.len() - 1 {
        assert(t.drop_last() =~= s.drop_last());
    } else {
        assert(t.drop_last() =~= s.drop_last().update(i, true));
        mark_reduces_pending(s.drop_last(), i);
    }
}

impl Graph {
    /// Whether `marks` holds node 0 and, with a node, every node that a
    /// concrete edge joins to it.
    pub open spec fn closed_set(&self, marks: Seq<bool>) -> bool {
        &&& marks.len() == self.size()
        &&& self.size() > 0 ==> marks[0]
        &&& forall|u: int, v: int|
            0 <= u < self.size() && 0 <= v < self.size() && marks[u] && #[trigger] self.concrete(
                v,
                u,
            ) ==> marks[v]
    }

    /// A set that holds node 0 and is closed under concrete edges holds
    /// every node that can be reached.
    pub proof fn closed_set_holds_reach(&self, marks: Seq<bool>, steps: nat, v: int)
        requires
            self.well_shaped(),
            self.closed_set(marks),
            0 <= v < self.size(),
            self.reach(steps, v),
        ensures
            marks[v],
        decreases steps,
    {
        if steps > 0 {
            if self.reach((steps - 1) as nat, v) {
                self.closed_set_holds_reach(marks, (steps - 1) as nat, v);
            } else {
                let u = choose|u: int|
                    0 <= u < self.size() && self.reach((steps - 1) as nat, u)
                        && #[trigger] self.concrete(u, v);
                self.closed_set_holds_reach(marks, (steps - 1) as nat, u);
                assert(self.concrete(v, u));
            }
        }
    }

    /// Returns `true` if every node can be reached from node 0.
    pub fn is_connected(&self) -> (r: bool)
        requires
            self.wf(),
        ensures
            r == self.all_reachable(),
    {
        if self.cache_connected {
            return true;
        }
        let n = self.nodes.len();
        if n == 0 {
            return true;
        }
        let mut marks: Vec<bool> = Vec::new();
        let mut t: usize = 0;
        while t < n
            invariant
                t <= n,
                marks@.len() == t,
                forall|x: int| 0 <= x < t ==> (#[trigger] marks@[x] <==> x == 0),
            decreases n - t,
        {
            marks.push(t == 0);
            t += 1;
        }
        assert(self.reach(0, 0));
        loop
            invariant
                self.wf(),
                n == self.size(),
                n > 0,
                marks@.len() == n,
                marks@[0],
                forall|x: int| 0 <= x < n && #[trigger] marks@[x] ==> self.reachable(x),
            ensures
                self.closed_set(marks@),
            decreases pending(marks@),
        {
            let ghost start = marks@;
            let mut changed = false;
            let mut i: usize = 0;
            while i < n
                invariant
                    self.wf(),
                    n == self.size(),
                    i <= n,
                    marks@.len() == n,
                    marks@[0],
                    forall|x: int| 0 <= x < n && #[trigger] marks@[x] ==> self.reachable(x),
                    !changed ==> marks@ == start,
                    changed ==> pending(marks@) < pending(start),
                    !changed ==> forall|u: int, v: int|
                        0 <= u < n && 0 <= v < i && marks@[u] && #[trigger] self.concrete(v, u)
                            ==> marks@[v],
                decreases n - i,
            {
                if !marks[i] {
                    let mut hit = false;
                    let mut j: usize = 0;
                    while j < n && !hit
                        invariant
                            self.wf(),
                            n == self.size(),
                            i < n,
                            j <= n,
                            marks@.len() == n,
                            !hit ==> forall|u: int|
                                0 <= u < j && marks@[u] ==> !#[trigger] self.concrete(i as int, u),
                            hit ==> 0 < j && marks@[j - 1] && self.concrete(i as int, j - 1),
                        decreases n - j + if hit { 0int } else { 1int },
                    {
                        if marks[j] && self.get((i, j)) >= 2 {
                            hit = true;
                        }
                        j += 1;
                    }
                    if hit {
                        proof {
                            let u = j - 1;
                            let s = choose|s: nat| self.reach(s, u);
                            assert(self.concrete(u, i as int));
                            assert(self.reach(s + 1, i as int));
                            mark_reduces_pending(marks@, i as int);
                        }
                        marks.set(i, true);
                        changed = true;
                    }
                }
                i += 1;
            }
            if !changed {
                break ;
            }
        }
        let mut all = true;
        let mut v: usize = 0;
        while v < n
            invariant
                v <= n,
                n == self.size(),
                marks@.len() == n,
                self.closed_set(marks@),
                forall|x: int| 0 <= x < n && #[trigger] marks@[x] ==> self.reachable(x),
                all <==> forall|x: int| 0 <= x < v ==> #[trigger] marks@[x],
            decreases n - v,
        {
            if !marks[v] {
                all = false;
            }
            v += 1;
        }
        proof {
            if all {
                assert forall|x: int| 0 <= x < n implies #[trigger] self.reachable(x) by {
                    assert(marks@[x]);
                }
            } else {
                let x = choose|x: int| 0 <= x < n && !#[trigger] marks@[x];
                assert forall|s: nat| !#[trigger] self.reach(s, x) by {
                    if self.reach(s, x) {
                        self.closed_set_holds_reach(marks@, s, x);
                    }
                }
                assert(!self.reachable(x));
            }
        }
        all
    }
}

} // verus!
