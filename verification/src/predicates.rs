//! The global predicates: triangles, reachability, the upper right cut and
//! the two rules on 4-cycles.

use vstd::prelude::*;
use crate::model::{Color, Graph};

verus! {

/// The rule on the two pairs of opposite edges `(p, q)` and `(r, s)` of a quad.
///
/// Commuting: both pairs are equal. Anticommuting: colors `2k` and `2k + 1`
/// are one base color with opposite signs; each pair shares its base color,
/// and exactly one of the two pairs flips the sign.
pub open spec fn opposite_rule(commute: bool, p: Color, q: Color, r: Color, s: Color) -> bool {
    if commute {
        p == q && r == s
    } else {
        let x0 = (p ^ 1) == q;
        let x1 = p == q;
        let y0 = (r ^ 1) == s;
        let y1 = r == s;
        (x0 != x1) && (y0 != y1) && (x0 != y0)
    }
}

/// Computes [`opposite_rule`].
pub fn check_opposite(commute: bool, p: Color, q: Color, r: Color, s: Color) -> (ok: bool)
    ensures
        ok == opposite_rule(commute, p, q, r, s),
{
    if commute {
        p == q && r == s
    } else {
        let x0 = (p ^ 1) == q;
        let x1 = p == q;
        let y0 = (r ^ 1) == s;
        let y1 = r == s;
        (x0 != x1) && (y0 != y1) && (x0 != y0)
    }
}

impl Graph {
    /// Whether `i < j < k` are nodes joined pairwise by concrete edges.
    pub open spec fn triangle(&self, i: int, j: int, k: int) -> bool {
        &&& 0 <= i < j < k < self.size()
        &&& self.concrete(i, j)
        &&& self.concrete(j, k)
        &&& self.concrete(i, k)
    }

    /// Whether the graph holds a triangle.
    pub open spec fn triangles_exist(&self) -> bool {
        exists|i: int, j: int, k: int| #[trigger] self.triangle(i, j, k)
    }

    /// Whether `v` can be reached from node 0 along at most `steps` concrete edges.
    pub open spec fn reach(&self, steps: nat, v: int) -> bool
        decreases steps,
    {
        if steps == 0 {
            v == 0
        } else {
            self.reach((steps - 1) as nat, v) || exists|u: int|
                0 <= u < self.size() && self.reach((steps - 1) as nat, u) && #[trigger] self.concrete(
                    u,
                    v,
                )
        }
    }

    /// Whether `v` can be reached from node 0 along concrete edges.
    pub open spec fn reachable(&self, v: int) -> bool {
        exists|steps: nat| #[trigger] self.reach(steps, v)
    }

    /// Whether every node can be reached from node 0 along concrete edges.
    pub open spec fn all_reachable(&self) -> bool {
        forall|v: int| 0 <= v < self.size() ==> #[trigger] self.reachable(v)
    }

    /// Whether the number of nodes is even and every pair with one end in the
    /// first half and the other in the second half is a definite no-edge.
    pub open spec fn upper_right_cut(&self) -> bool {
        &&& self.size() % 2 == 0
        &&& forall|i: int, j: int|
            0 <= i < self.size() / 2 && self.size() / 2 <= j < self.size() ==> #[trigger] self.edge(
                i,
                j,
            ) == 1
    }

    /// Whether `a, b, c, d` are four distinct nodes on a cycle of concrete
    /// edges `a-b`, `b-c`, `c-d`, `d-a`.
    pub open spec fn quad(&self, a: int, b: int, c: int, d: int) -> bool {
        &&& 0 <= a < self.size() && 0 <= b < self.size()
        &&& 0 <= c < self.size() && 0 <= d < self.size()
        &&& a != b && a != c && a != d && b != c && b != d && c != d
        &&& self.concrete(a, b)
        &&& self.concrete(b, c)
        &&& self.concrete(c, d)
        &&& self.concrete(d, a)
    }

    /// Whether `a, b, c, d` is no quad, or a quad whose opposite edges follow the rule.
    pub open spec fn quad_passes(&self, commute: bool, a: int, b: int, c: int, d: int) -> bool {
        self.quad(a, b, c, d) ==> opposite_rule(
            commute,
            self.edge(a, b),
            self.edge(c, d),
            self.edge(b, c),
            self.edge(d, a),
        )
    }

    /// Whether every quad follows the rule.
    pub open spec fn quads_agree(&self, commute: bool) -> bool {
        forall|a: int, b: int, c: int, d: int| #[trigger] self.quad_passes(commute, a, b, c, d)
    }

    /// Whether `i, j, k` are distinct nodes joined pairwise by concrete edges.
    pub open spec fn corner(&self, i: int, j: int, k: int) -> bool {
        &&& 0 <= i < self.size() && 0 <= j < self.size() && 0 <= k < self.size()
        &&& i != j && i != k && j != k
        &&& self.concrete(i, j)
        &&& self.concrete(j, k)
        &&& self.concrete(k, i)
    }

    /// Whether `i` lies on the triangle `i, j, k` or on the quad `i, j, k, l`.
    pub open spec fn short_cycle(&self, i: int, j: int, k: int, l: int) -> bool {
        self.corner(i, j, k) || self.quad(i, j, k, l)
    }

    /// Whether node `i` lies on a cycle of length 3 or 4.
    pub open spec fn meets(&self, i: int) -> bool {
        exists|j: int, k: int, l: int| #[trigger] self.short_cycle(i, j, k, l)
    }

    /// Whether every node lies on a cycle of length 3 or 4.
    pub open spec fn all_meet(&self) -> bool {
        forall|i: int| 0 <= i < self.size() ==> #[trigger] self.meets(i)
    }

    /// Returns whether the graph contains triangles.
    #[verifier::loop_isolation(false)]
    pub fn has_triangles(&self) -> (r: bool)
        requires
            self.wf(),
        ensures
            r == self.triangles_exist(),
    {
        if self.cache_has_triangles {
            return true;
        }
        let n = self.nodes.len();
        let mut i: usize = 0;
        while i < n
            invariant
                i <= n,
                forall|a: int, b: int, c: int| a < i ==> !#[trigger] self.triangle(a, b, c),
            decreases n - i,
        {
            let mut j: usize = i + 1;
            while j < n
                invariant
                    i < j <= n,
                    forall|b: int, c: int| b < j ==> !#[trigger] self.triangle(i as int, b, c),
                decreases n - j,
            {
                if self.get((i, j)) >= 2 {
                    let mut k: usize = j + 1;
                    while k < n
                        invariant
                            j < k <= n,
                            forall|c: int| c < k ==> !#[trigger] self.triangle(i as int, j as int, c),
                        decreases n - k,
                    {
                        if self.get((j, k)) >= 2 && self.get((i, k)) >= 2 {
                            assert(self.triangle(i as int, j as int, k as int));
                            return true;
                        }
                        k += 1;
                    }
                }
                j += 1;
            }
            i += 1;
        }
        false
    }

    /// Returns `true` if no-edges cover the upper right rectangle of the
    /// matrix form, which means that the graph can never become connected.
    #[verifier::loop_isolation(false)]
    pub fn is_upper_right_disconnected(&self) -> (r: bool)
        requires
            self.wf(),
        ensures
            r == self.upper_right_cut(),
    {
        if self.cache_upper_right_disconnected {
            return true;
        }
        let n = self.nodes.len();
        if n % 2 != 0 {
            return false;
        }
        let half = n / 2;
        let mut i: usize = 0;
        while i < half
            invariant
                i <= half,
                forall|a: int, b: int| 0 <= a < i && half <= b < n ==> #[trigger] self.edge(a, b) == 1,
            decreases half - i,
        {
            let mut j: usize = half;
            while j < n
                invariant
                    half <= j <= n,
                    i < half,
                    forall|b: int| half <= b < j ==> #[trigger] self.edge(i as int, b) == 1,
                decreases n - j,
            {
                if self.get((i, j)) != 1 {
                    return false;
                }
                j += 1;
            }
            i += 1;
        }
        true
    }

    /// Returns `true` when every quad follows the rule: commuting for
    /// `commute == true`, anticommuting for `commute == false`. A set quad
    /// cell answers for the rule that `commute_quad` selects.
    #[verifier::loop_isolation(false)]
    pub fn commute_quad_satisfied(&self, commute: bool) -> (r: bool)
        requires
            self.wf(),
        ensures
            r == (self.cache_commute_quad_satisfied || self.quads_agree(commute)),
            self.commute_quad == Some(commute) ==> r == self.quads_agree(commute),
    {
        if self.cache_commute_quad_satisfied {
            return true;
        }
        let n = self.nodes.len();
        let mut a: usize = 0;
        while a < n
            invariant
                a <= n,
                forall|w: int, x: int, y: int, z: int|
                    w < a ==> #[trigger] self.quad_passes(commute, w, x, y, z),
            decreases n - a,
        {
            let mut b: usize = 0;
            while b < n
                invariant
                    b <= n,
                    a < n,
                    forall|x: int, y: int, z: int|
                        x < b ==> #[trigger] self.quad_passes(commute, a as int, x, y, z),
                decreases n - b,
            {
                if b != a && self.get((a, b)) >= 2 {
                    let mut c: usize = 0;
                    while c < n
                        invariant
                            c <= n,
                            forall|y: int, z: int|
                                y < c ==> #[trigger] self.quad_passes(
                                    commute,
                                    a as int,
                                    b as int,
                                    y,
                                    z,
                                ),
                        decreases n - c,
                    {
                        if c != a && c != b && self.get((b, c)) >= 2 {
                            let mut d: usize = 0;
                            while d < n
                                invariant
                                    d <= n,
                                    forall|z: int|
                                        z < d ==> #[trigger] self.quad_passes(
                                            commute,
                                            a as int,
                                            b as int,
                                            c as int,
                                            z,
                                        ),
                                decreases n - d,
                            {
                                if d != a && d != b && d != c && self.get((c, d)) >= 2 && self.get(
                                    (d, a),
                                ) >= 2 {
                                    let ok = check_opposite(
                                        commute,
                                        self.get((a, b)),
                                        self.get((c, d)),
                                        self.get((b, c)),
                                        self.get((d, a)),
                                    );
                                    if !ok {
                                        assert(!self.quad_passes(
                                            commute,
                                            a as int,
                                            b as int,
                                            c as int,
                                            d as int,
                                        ));
                                        return false;
                                    }
                                }
                                d += 1;
                            }
                        }
                        c += 1;
                    }
                }
                b += 1;
            }
            a += 1;
        }
        true
    }

    /// Whether node `i` lies on a cycle of length 3 or 4.
    #[verifier::loop_isolation(false)]
    pub fn node_meets_quad(&self, i: usize) -> (r: bool)
        requires
            self.wf(),
            i < self.size(),
        ensures
            r == self.meets(i as int),
    {
        let n = self.nodes.len();
        let mut j: usize = 0;
        while j < n
            invariant
                j <= n,
                forall|x: int, y: int, z: int| x < j ==> !#[trigger] self.short_cycle(i as int, x, y, z),
            decreases n - j,
        {
            if j != i && self.get((i, j)) >= 2 {
                let mut k: usize = 0;
                while k < n
                    invariant
                        k <= n,
                        forall|y: int, z: int|
                            y < k ==> !#[trigger] self.short_cycle(i as int, j as int, y, z),
                    decreases n - k,
                {
                    if k != i && k != j && self.get((j, k)) >= 2 {
                        if self.get((k, i)) >= 2 {
                            assert(self.short_cycle(i as int, j as int, k as int, 0));
                            return true;
                        }
                        let mut l: usize = 0;
                        while l < n
                            invariant
                                l <= n,
                                forall|z: int|
                                    z < l ==> !#[trigger] self.short_cycle(
                                        i as int,
                                        j as int,
                                        k as int,
                                        z,
                                    ),
                            decreases n - l,
                        {
                            if l != i && l != j && l != k && self.get((k, l)) >= 2 && self.get(
                                (l, i),
                            ) >= 2 {
                                assert(self.short_cycle(i as int, j as int, k as int, l as int));
                                return true;
                            }
                            l += 1;
                        }
                    }
                    k += 1;
                }
            }
            j += 1;
        }
        false
    }

    /// Returns `true` when every node lies on a cycle of length 3 or 4.
    #[verifier::loop_isolation(false)]
    pub fn meet_quad_satisfied(&self) -> (r: bool)
        requires
            self.wf(),
        ensures
            r == self.all_meet(),
    {
        let n = self.nodes.len();
        let mut i: usize = 0;
        while i < n
            invariant
                i <= n,
                forall|x: int| 0 <= x < i ==> #[trigger] self.meets(x),
            decreases n - i,
        {
            if !self.node_meets_quad(i) {
                return false;
            }
            i += 1;
        }
        true
    }
}

} // verus!
