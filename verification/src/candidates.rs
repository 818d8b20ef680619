//! The candidate colors of an undecided pair, and the choice of the next pair.

use vstd::prelude::*;
use crate::model::{Color, Graph, DISCONNECTED_EDGE};

verus! {

/// Whether each entry of `s` is less than the next.
pub open spec fn strictly_increasing(s: Seq<Color>) -> bool {
    forall|a: int, b: int| 0 <= a < b < s.len() ==> s[a] < s[b]
}

/// Whether the position `a` comes before `b` in row-major order.
pub open spec fn comes_before(a: (int, int), b: (int, int)) -> bool {
    a.0 < b.0 || (a.0 == b.0 && a.1 < b.1)
}

/// Puts `c` into the increasing list `v`, unless it is there already.
pub fn insert_sorted(v: &mut Vec<Color>, c: Color)
    requires
        strictly_increasing(old(v)@),
    ensures
        strictly_increasing(final(v)@),
        forall|x: Color| final(v)@.contains(x) <==> (old(v)@.contains(x) || x == c),
{
    let n = v.len();
    let mut p: usize = 0;
    while p < n && v[p] < c
        invariant
            p <= n,
            n == v@.len(),
            v@ == old(v)@,
            forall|a: int| 0 <= a < p ==> v@[a] < c,
        decreases n - p,
    {
        p += 1;
    }
    if p < n && v[p] == c {
        assert(v@[p as int] == c);
        return ;
    }
    v.insert(p, c);
    proof {
        let o = old(v)@;
        let f = v@;
        assert(f.len() == o.len() + 1);
        assert(forall|k: int| 0 <= k < p ==> f[k] == o[k]);
        assert(f[p as int] == c);
        assert(forall|k: int| p < k < f.len() ==> f[k] == o[k - 1]);
        assert(strictly_increasing(f)) by {
            assert forall|a: int, b: int| 0 <= a < b < f.len() implies f[a] < f[b] by {
                if b < p {
                } else if b == p {
                } else if a < p {
                    assert(f[b] == o[b - 1]);
                } else if a == p {
                    assert(f[b] == o[b - 1]);
                } else {
                    assert(f[a] == o[a - 1] && f[b] == o[b - 1]);
                }
            }
        }
        assert forall|x: Color| f.contains(x) <==> (o.contains(x) || x == c) by {
            if f.contains(x) {
                let k = choose|k: int| 0 <= k < f.len() && f[k] == x;
                if k < p {
                    assert(o[k] == x);
                } else if k > p {
                    assert(o[k - 1] == x);
                }
            }
            if o.contains(x) {
                let k = choose|k: int| 0 <= k < o.len() && o[k] == x;
                if k < p {
                    assert(f[k] == x);
                } else {
                    assert(f[k + 1] == x);
                }
            }
            if x == c {
                assert(f[p as int] == x);
            }
        }
    }
}

impl Graph {
    /// Whether no color may be put on `{i, j}` at all: the pair is decided
    /// already, it is a forbidden self-loop, or a rule that is switched on
    /// has failed for good.
    pub open spec fn blocked(&self, i: int, j: int) -> bool {
        ||| self.edge(i, j) != 0
        ||| (i == j && !self.nodes@[i].self_connected)
        ||| (self.no_triangles && self.triangles_exist())
        ||| (self.connected && self.upper_right_cut())
        ||| (self.commute_quad is Some && !self.quads_agree(self.commute_quad->0))
    }

    /// Whether the unmet entry `x` of node `i` and the unmet entry `y` of
    /// node `j` ask for an edge of color `c` to each other.
    pub open spec fn pairing(&self, i: int, j: int, c: Color, x: int, y: int) -> bool {
        &&& 0 <= x < self.unmet(i).len()
        &&& 0 <= y < self.unmet(j).len()
        &&& self.unmet(i)[x].edge == c
        &&& self.unmet(i)[x].node == self.nodes@[j].color
        &&& self.unmet(j)[y].edge == c
        &&& self.unmet(j)[y].node == self.nodes@[i].color
    }

    /// Whether one of the first `upto` unmet entries of node `i` pairs with
    /// an unmet entry of node `j` on the color `c`.
    pub open spec fn offered_upto(&self, i: int, j: int, c: Color, upto: int) -> bool {
        exists|x: int, y: int| x < upto && #[trigger] self.pairing(i, j, c, x, y)
    }

    /// Whether `c` is a legal next color of `{i, j}`: the pair is not
    /// blocked, and `c` is the no-edge color or a color that both ends still
    /// ask for, each with the other end's node color.
    pub open spec fn candidate(&self, i: int, j: int, c: Color) -> bool {
        !self.blocked(i, j) && (c == DISCONNECTED_EDGE || self.offered_upto(
            i,
            j,
            c,
            self.unmet(i).len() as int,
        ))
    }

    /// The legal next colors of `{i, j}`.
    pub open spec fn candidates(&self, i: int, j: int) -> Set<Color> {
        Set::new(|c: Color| self.candidate(i, j, c))
    }

    /// How many legal next colors `{i, j}` has.
    pub open spec fn choices(&self, i: int, j: int) -> nat {
        self.candidates(i, j).len()
    }

    /// Whether `(i, j)` lies in the upper triangle, diagonal included.
    pub open spec fn upper(&self, i: int, j: int) -> bool {
        0 <= i <= j < self.size()
    }

    /// Whether `(i, j)` has the fewest legal colors among the positions of
    /// the upper triangle that have any, and is the first such in row-major order.
    pub open spec fn least_choice(&self, i: int, j: int) -> bool {
        &&& self.upper(i, j)
        &&& self.choices(i, j) > 0
        &&& forall|a: int, b: int|
            self.upper(a, b) && #[trigger] self.choices(a, b) > 0 ==> self.choices(i, j)
                <= self.choices(a, b) && (self.choices(a, b) == self.choices(i, j)
                ==> !comes_before((a, b), (i, j)))
    }

    /// Whether `(i, j)` is the first position of the upper triangle, in
    /// row-major order, that has a legal color.
    pub open spec fn first_choice(&self, i: int, j: int) -> bool {
        &&& self.upper(i, j)
        &&& self.choices(i, j) > 0
        &&& forall|a: int, b: int|
            self.upper(a, b) && comes_before((a, b), (i, j)) ==> #[trigger] self.choices(a, b) == 0
    }

    /// Whether no position of the upper triangle has a legal color.
    pub open spec fn no_choice(&self) -> bool {
        forall|a: int, b: int| self.upper(a, b) ==> #[trigger] self.choices(a, b) == 0
    }

    /// Returns the legal next colors of the pair `pos`, in increasing order
    /// and without repeats.
    pub fn colors(&self, pos: (usize, usize)) -> (res: Vec<Color>)
        requires
            self.wf(),
            pos.0 < self.size(),
            pos.1 < self.size(),
        ensures
            strictly_increasing(res@),
            forall|c: Color| res@.contains(c) <==> self.candidate(pos.0 as int, pos.1 as int, c),
            res@.len() == self.choices(pos.0 as int, pos.1 as int),
    {
        let (i, j) = pos;
        let mut res: Vec<Color> = Vec::new();
        let blocked = if self.get((i, j)) != 0 {
            true
        } else if !self.nodes[i].self_connected && i == j {
            true
        } else if self.no_triangles && self.has_triangles() {
            true
        } else if self.connected && self.is_upper_right_disconnected() {
            true
        } else {
            match self.commute_quad {
                Some(val) => !self.commute_quad_satisfied(val),
                None => false,
            }
        };
        assert(blocked == self.blocked(i as int, j as int));
        if !blocked {
            let errors = self.node_satisfied(i);
            let other_errors = self.node_satisfied(j);
            let there = self.nodes[j].color;
            let here = self.nodes[i].color;
            let mut x: usize = 0;
            while x < errors.len()
                invariant
                    self.wf(),
                    i < self.size(),
                    j < self.size(),
                    errors@ == self.unmet(i as int),
                    other_errors@ == self.unmet(j as int),
                    there == self.nodes@[j as int].color,
                    here == self.nodes@[i as int].color,
                    x <= errors@.len(),
                    strictly_increasing(res@),
                    forall|c: Color|
                        res@.contains(c) <==> self.offered_upto(i as int, j as int, c, x as int),
                decreases errors@.len() - x,
            {
                let err = errors[x];
                let mut found = false;
                if err.node == there {
                    let mut y: usize = 0;
                    while y < other_errors.len() && !found
                        invariant
                            errors@ == self.unmet(i as int),
                            other_errors@ == self.unmet(j as int),
                            there == self.nodes@[j as int].color,
                            here == self.nodes@[i as int].color,
                            x < errors@.len(),
                            err == errors@[x as int],
                            err.node == there,
                            y <= other_errors@.len(),
                            !found ==> forall|w: int|
                                w < y ==> !#[trigger] self.pairing(
                                    i as int,
                                    j as int,
                                    err.edge,
                                    x as int,
                                    w,
                                ),
                            found ==> exists|w: int|
                                #[trigger] self.pairing(i as int, j as int, err.edge, x as int, w),
                        decreases other_errors@.len() - y + if found { 0int } else { 1int },
                    {
                        let other = other_errors[y];
                        if err.edge == other.edge && other.node == here {
                            assert(self.pairing(i as int, j as int, err.edge, x as int, y as int));
                            found = true;
                        } else {
                            y += 1;
                        }
                    }
                }
                let ghost before = res@;
                if found {
                    insert_sorted(&mut res, err.edge);
                }
                proof {
                    assert forall|c: Color|
                        res@.contains(c) <==> self.offered_upto(
                            i as int,
                            j as int,
                            c,
                            x as int + 1,
                        ) by {
                        if self.offered_upto(i as int, j as int, c, x as int + 1) {
                            let (a, b) = choose|a: int, b: int|
                                a < x as int + 1 && #[trigger] self.pairing(i as int, j as int, c, a, b);
                            if a < x {
                                assert(self.offered_upto(i as int, j as int, c, x as int));
                            }
                        }
                        if before.contains(c) {
                            assert(self.offered_upto(i as int, j as int, c, x as int));
                            let (a, b) = choose|a: int, b: int|
                                a < x as int && #[trigger] self.pairing(i as int, j as int, c, a, b);
                            assert(a < x as int + 1 && self.pairing(i as int, j as int, c, a, b));
                        }
                    }
                }
                x += 1;
            }
            insert_sorted(&mut res, DISCONNECTED_EDGE);
        }
        proof {
            let (a, b) = (i as int, j as int);
            assert forall|c: Color| res@.contains(c) <==> self.candidate(a, b, c) by {}
            assert(res@.no_duplicates());
            res@.unique_seq_to_set();
            assert(res@.to_set() =~= self.candidates(a, b));
        }
        res
    }

    /// Finds the first pair, in row-major order over the upper triangle, that
    /// has a legal color.
    pub fn fst_empty(&self) -> (r: Option<(usize, usize)>)
        requires
            self.wf(),
        ensures
            match r {
                Some(p) => self.first_choice(p.0 as int, p.1 as int),
                None => self.no_choice(),
            },
    {
        let n = self.nodes.len();
        let mut i: usize = 0;
        while i < n
            invariant
                self.wf(),
                n == self.size(),
                i <= n,
                forall|a: int, b: int|
                    self.upper(a, b) && a < i ==> #[trigger] self.choices(a, b) == 0,
            decreases n - i,
        {
            let mut j: usize = i;
            while j < n
                invariant
                    self.wf(),
                    n == self.size(),
                    i < n,
                    i <= j <= n,
                    forall|a: int, b: int|
                        self.upper(a, b) && comes_before((a, b), (i as int, j as int))
                            ==> #[trigger] self.choices(a, b) == 0,
                decreases n - j,
            {
                let s = self.colors((i, j)).len();
                if s != 0 {
                    return Some((i, j));
                }
                j += 1;
            }
            i += 1;
        }
        None
    }

    /// Finds the pair with the least possible colors: among the positions of
    /// the upper triangle that have a legal color, the first in row-major
    /// order of those that have the fewest.
    pub fn min_colors(&self) -> (r: Option<(usize, usize)>)
        requires
            self.wf(),
        ensures
            match r {
                Some(p) => self.least_choice(p.0 as int, p.1 as int),
                None => self.no_choice(),
            },
    {
        let mut min: Option<(usize, usize, usize)> = None;
        let n = self.nodes.len();
        let mut i: usize = 0;
        while i < n
            invariant
                self.wf(),
                n == self.size(),
                i <= n,
                self.leads(min, i as int, i as int),
            decreases n - i,
        {
            let mut j: usize = i;
            while j < n
                invariant
                    self.wf(),
                    n == self.size(),
                    i < n,
                    i <= j <= n,
                    self.leads(min, i as int, j as int),
                decreases n - j,
            {
                let s = self.colors((i, j)).len();
                if s != 0 {
                    let better = match min {
                        None => true,
                        Some(m) => m.2 > s,
                    };
                    if better {
                        min = Some((i, j, s));
                        if s == 1 {
                            return Some((i, j));
                        }
                    }
                }
                j += 1;
            }
            i += 1;
        }
        match min {
            Some(m) => Some((m.0, m.1)),
            None => None,
        }
    }

    /// Whether `min` is the answer for the positions before `(i, j)`: nothing
    /// when none of them has a legal color, else the first of those with the
    /// fewest, which are more than one.
    pub open spec fn leads(&self, min: Option<(usize, usize, usize)>, i: int, j: int) -> bool {
        match min {
            None => forall|a: int, b: int|
                self.upper(a, b) && comes_before((a, b), (i, j)) ==> #[trigger] self.choices(a, b)
                    == 0,
            Some(m) => {
                &&& self.upper(m.0 as int, m.1 as int)
                &&& comes_before((m.0 as int, m.1 as int), (i, j))
                &&& m.2 == self.choices(m.0 as int, m.1 as int)
                &&& m.2 > 1
                &&& forall|a: int, b: int|
                    self.upper(a, b) && comes_before((a, b), (i, j)) && #[trigger] self.choices(a, b)
                        > 0 ==> m.2 <= self.choices(a, b) && (self.choices(a, b) == m.2
                        ==> !comes_before((a, b), (m.0 as int, m.1 as int)))
            },
        }
    }
}

} // verus!
