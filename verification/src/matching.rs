//! Local satisfaction as counting: a template entry is matched when fewer
//! equal entries stand before it than the node has edges that supply it.

use vstd::prelude::*;
use crate::cache::first_free_is_first;
use crate::local::first_free;
use crate::model::{Constraint, Graph};

verus! {

/// How many of the first `upto` entries of `want` ask for `c`.
pub open spec fn asked(want: Seq<Constraint>, c: Constraint, upto: int) -> nat
    decreases upto,
{
    if upto <= 0 {
        0
    } else {
        asked(want, c, upto - 1) + if want[upto - 1] == c {
            1nat
        } else {
            0nat
        }
    }
}

proof fn asked_grows(want: Seq<Constraint>, c: Constraint, a: int, b: int)
    requires
        a <= b,
    ensures
        asked(want, c, a) <= asked(want, c, b),
    decreases b - a,
{
    if a < b {
        asked_grows(want, c, a, b - 1);
    }
}

proof fn asked_counts_entry(want: Seq<Constraint>, c: Constraint, a: int, b: int)
    requires
        0 <= a < b,
        want[a] == c,
    ensures
        asked(want, c, a) < asked(want, c, b),
{
    asked_grows(want, c, a + 1, b);
}

proof fn asked_previous(want: Seq<Constraint>, c: Constraint, upto: int) -> (k: int)
    requires
        asked(want, c, upto) > 0,
    ensures
        0 <= k < upto,
        want[k] == c,
        asked(want, c, k) + 1 == asked(want, c, upto),
    decreases upto,
{
    if want[upto - 1] == c {
        upto - 1
    } else {
        asked_previous(want, c, upto - 1)
    }
}

impl Graph {
    /// How many concrete edges of node `i` to the nodes `0 .. upto` have the
    /// color and lead to the node color that `c` asks for.
    pub open spec fn supplied(&self, i: int, c: Constraint, upto: int) -> nat
        decreases upto,
    {
        if upto <= 0 {
            0
        } else {
            self.supplied(i, c, upto - 1) + if self.concrete(i, upto - 1) && self.seen(i, upto - 1)
                == c {
                1nat
            } else {
                0nat
            }
        }
    }

    /// A template entry is matched exactly when fewer equal entries stand
    /// before it in the template than the node has concrete edges that
    /// supply it: edges are counted with multiplicity, and no entry is
    /// matched twice.
    pub proof fn slot_is_matched_iff_supplied(&self, i: int, upto: int)
        requires
            self.well_shaped(),
            0 <= i < self.size(),
            0 <= upto <= self.size(),
        ensures
            self.matched(i, upto).len() == self.nodes@[i].edges@.len(),
            forall|k: int|
                0 <= k < self.nodes@[i].edges@.len() ==> (#[trigger] self.matched(i, upto)[k] <==> asked(
                    self.nodes@[i].edges@,
                    self.nodes@[i].edges@[k],
                    k,
                ) < self.supplied(i, self.nodes@[i].edges@[k], upto)),
        decreases upto,
    {
        let want = self.nodes@[i].edges@;
        self.matched_len(i, upto);
        if upto > 0 {
            self.slot_is_matched_iff_supplied(i, upto - 1);
            self.matched_len(i, upto - 1);
            let before = self.matched(i, upto - 1);
            let after = self.matched(i, upto);
            if self.concrete(i, upto - 1) {
                let c = self.seen(i, upto - 1);
                let s = self.supplied(i, c, upto - 1);
                first_free_is_first(want, before, c, 0);
                let kf = first_free(want, before, c, 0);
                if kf < want.len() {
                    let rf = asked(want, c, kf);
                    assert(rf == s) by {
                        if rf > 0 {
                            let kp = asked_previous(want, c, kf);
                            assert(before[kp] || want[kp] != c);
                        }
                    }
                }
                assert forall|k: int| 0 <= k < want.len() implies (#[trigger] after[k] <==> asked(
                    want,
                    want[k],
                    k,
                ) < self.supplied(i, want[k], upto)) by {
                    if want[k] == c {
                        assert(before[k] <==> asked(want, c, k) < s);
                        if kf < want.len() {
                            if k < kf {
                                asked_counts_entry(want, c, k, kf);
                            } else if k > kf {
                                asked_counts_entry(want, c, kf, k);
                            }
                        } else {
                            assert(before[k] || want[k] != c);
                        }
                    } else {
                        assert(before[k] <==> asked(want, want[k], k) < self.supplied(
                            i,
                            want[k],
                            upto - 1,
                        ));
                    }
                }
            } else {
                assert forall|k: int| 0 <= k < want.len() implies (#[trigger] after[k] <==> asked(
                    want,
                    want[k],
                    k,
                ) < self.supplied(i, want[k], upto)) by {
                    assert(before[k] <==> asked(want, want[k], k) < self.supplied(
                        i,
                        want[k],
                        upto - 1,
                    ));
                }
            }
        }
    }

    /// A node is satisfied exactly when, for each of its template entries,
    /// at least as many concrete edges supply the entry as the template
    /// holds copies of it.
    pub proof fn satisfied_iff_enough_supplied(&self, i: int)
        requires
            self.well_shaped(),
            0 <= i < self.size(),
        ensures
            self.unmet(i).len() == 0 <==> forall|k: int|
                0 <= k < self.nodes@[i].edges@.len() ==> asked(
                    self.nodes@[i].edges@,
                    #[trigger] self.nodes@[i].edges@[k],
                    self.nodes@[i].edges@.len() as int,
                ) <= self.supplied(i, self.nodes@[i].edges@[k], self.size()),
    {
        let want = self.nodes@[i].edges@;
        let n = self.size();
        let len = want.len() as int;
        let used = self.matched(i, n);
        self.slot_is_matched_iff_supplied(i, n);
        crate::cache::leftover_is_empty_when_all_used(want, used, len);
        if self.unmet(i).len() == 0 {
            assert forall|k: int| 0 <= k < len implies asked(want, #[trigger] want[k], len)
                <= self.supplied(i, want[k], n) by {
                let c = want[k];
                asked_counts_entry(want, c, k, len);
                let last = asked_previous(want, c, len);
                assert(used[last]);
            }
        }
        if forall|k: int|
            0 <= k < len ==> asked(want, #[trigger] want[k], len) <= self.supplied(i, want[k], n) {
            assert forall|k: int| 0 <= k < len implies used[k] by {
                let c = want[k];
                assert(asked(want, want[k], len) <= self.supplied(i, want[k], n));
                asked_counts_entry(want, c, k, len);
            }
        }
    }
}

} // verus!
