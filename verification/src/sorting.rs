//! A merge sort that can stop at every comparison.
//!
//! The sort permutes places, not values. It is bottom-up, so that its whole
//! state is two buffers and six numbers, and whoever answers a comparison can
//! take as long as it needs.
use vstd::prelude::*;
use vstd::arithmetic::power::{lemma_pow0, pow};

verus! {

/// A merge sort in progress.
#[derive(Debug)]
pub struct Merge {
    /// The places as the last pass left them.
    pub src: Vec<usize>,
    /// What this pass has written so far.
    pub dst: Vec<usize>,
    /// How long the sorted runs of `src` are.
    pub width: usize,
    /// The pair of runs being merged: `lo..mid` and `mid..hi`.
    pub lo: usize,
    pub mid: usize,
    pub hi: usize,
    /// The next element of either run.
    pub i: usize,
    pub j: usize,
}

/// What a comparison of places says: the first is less than the second.
pub type Less = spec_fn(int, int) -> bool;

/// The comparison turned round for a descending sort.
pub open spec fn lesser(lt: Less, reverse: bool, a: int, b: int) -> bool {
    if reverse { lt(b, a) } else { lt(a, b) }
}

/// `a` comes before `b` in a stable sort: it is less, or neither is and it came
/// first.
pub open spec fn before(lt: Less, reverse: bool, a: int, b: int) -> bool {
    lesser(lt, reverse, a, b) || (!lesser(lt, reverse, b, a) && a < b)
}

/// A comparison that a sort can rely on: a strict weak order.
pub open spec fn weak_order(lt: Less) -> bool {
    &&& forall|a: int| !#[trigger] lt(a, a)
    &&& forall|a: int, b: int, c: int| #[trigger] lt(a, b) && #[trigger] lt(b, c) ==> lt(a, c)
    &&& forall|a: int, b: int, c: int| #![trigger lt(a, c), lt(a, b), lt(b, c)] lt(a, c) ==> lt(a, b) || lt(b, c)
}

proof fn lemma_before_transitive(lt: Less, reverse: bool, a: int, b: int, c: int)
    requires
        weak_order(lt),
        before(lt, reverse, a, b),
        before(lt, reverse, b, c),
    ensures before(lt, reverse, a, c),
{
    let x = lt(a, b);
    let y = lt(b, a);
    let z = lt(b, c);
    let u = lt(c, b);
    let v = lt(a, c);
    let w = lt(c, a);
}

/// The places are in the order of a stable sort.
pub open spec fn sorted(s: Seq<usize>, lt: Less, reverse: bool) -> bool {
    forall|p: int, q: int| 0 <= p < q < s.len() ==> before(lt, reverse, #[trigger] s[p] as int, #[trigger] s[q] as int)
}

/// A strict weak order of the places below `n`.
pub open spec fn weak_below(lt: Less, n: nat) -> bool {
    &&& forall|a: int| 0 <= a < n ==> !#[trigger] lt(a, a)
    &&& forall|a: int, b: int, c: int| 0 <= a < n && 0 <= b < n && 0 <= c < n && #[trigger] lt(a, b) && #[trigger] lt(b, c)
        ==> lt(a, c)
    &&& forall|a: int, b: int, c: int| #![trigger lt(a, c), lt(a, b), lt(b, c)]
        0 <= a < n && 0 <= b < n && 0 <= c < n && lt(a, c) ==> lt(a, b) || lt(b, c)
}

/// A comparison of the places below `n` carried on to all others, which are as
/// the first.
pub open spec fn carried_on(lt: Less, n: nat) -> Less {
    |a: int, b: int| lt(if 0 <= a < n { a } else { 0 }, if 0 <= b < n { b } else { 0 })
}

/// What a sort relies on need only hold of the places it sorts.
pub proof fn lemma_carried_on(lt: Less, n: nat)
    requires n > 0, weak_below(lt, n),
    ensures weak_order(carried_on(lt, n)),
{
    let lu = carried_on(lt, n);
    assert forall|a: int| !#[trigger] lu(a, a) by {
        let x = if 0 <= a < n { a } else { 0 };
        assert(!lt(x, x));
    }
    assert forall|a: int, b: int, c: int| #[trigger] lu(a, b) && #[trigger] lu(b, c) implies lu(a, c) by {
        let x = if 0 <= a < n { a } else { 0 };
        let y = if 0 <= b < n { b } else { 0 };
        let z = if 0 <= c < n { c } else { 0 };
        assert(lt(x, y) && lt(y, z));
    }
    assert forall|a: int, b: int, c: int| #![trigger lu(a, c), lu(a, b), lu(b, c)] lu(a, c) implies lu(a, b) || lu(b, c) by {
        let x = if 0 <= a < n { a } else { 0 };
        let y = if 0 <= b < n { b } else { 0 };
        let z = if 0 <= c < n { c } else { 0 };
        assert(lt(x, z));
        let p = lt(x, y);
        let q = lt(y, z);
    }
}

/// Two places that were compared, either way round.
pub open spec fn met(c: Less, a: int, b: int) -> bool {
    c(a, b) || c(b, a)
}

/// The places at `p` and behind it were compared.
pub open spec fn near(c: Less, s: Seq<usize>, p: int) -> bool {
    met(c, s[p] as int, s[p + 1] as int)
}

/// The places `0..n` in their own order.
pub open spec fn counting(n: nat) -> Seq<usize> {
    Seq::new(n, |i: int| i as usize)
}

/// Less is left in `b` than in `a`.
pub open spec fn closer(a: (int, int, int), b: (int, int, int)) -> bool {
    b.0 < a.0 || (b.0 == a.0 && (b.1 < a.1 || (b.1 == a.1 && b.2 < a.2)))
}

/// The smaller of two numbers.
pub open spec fn smaller(a: int, b: int) -> int {
    if a < b { a } else { b }
}

/// How often `w` must be doubled to reach `n`.
pub open spec fn doublings(w: int, n: int) -> nat
    decreases (if w < n { n - w } else { 0 }),
{
    if w < 1 || w >= n { 0 } else { 1 + doublings(2 * w, n) }
}

/// The logarithm of `n` to the base two, rounded up.
pub open spec fn log2_ceil(n: nat) -> nat {
    doublings(1, n as int)
}

impl Merge {
    /// How many places are sorted.
    pub open spec fn n(&self) -> nat {
        self.src@.len()
    }

    /// Where the next place is written.
    pub open spec fn k(&self) -> int {
        self.i + self.j - self.mid
    }

    /// Whether the sort is done.
    pub open spec fn done(&self) -> bool {
        self.width >= self.n()
    }

    /// The numbers fit together.
    pub open spec fn shaped(&self) -> bool {
        &&& self.dst@.len() == self.n()
        &&& self.width >= 1
        &&& !self.done() ==> {
            &&& self.lo <= self.n()
            &&& self.lo as int % (2 * self.width as int) == 0 || self.lo == self.n()
            &&& self.i <= self.mid <= self.j <= self.hi <= self.n()
            &&& self.lo < self.n() ==> {
                &&& self.lo as int % (2 * self.width as int) == 0
                &&& self.lo <= self.i
                &&& self.mid == smaller(self.lo + self.width, self.n() as int)
                &&& self.hi == smaller(self.lo + 2 * self.width, self.n() as int)
            }
            &&& self.lo == self.n() ==> self.i == self.mid && self.j == self.hi && self.hi == self.n()
        }
    }

    /// What was written is what was read: `src` holds every place once, and so
    /// does what this pass has written of it.
    pub open spec fn permutes(&self) -> bool {
        &&& self.src@.to_multiset() == counting(self.n()).to_multiset()
        &&& !self.done() ==> self.dst@.take(self.k()).to_multiset()
            == (self.src@.take(self.i as int) + self.src@.subrange(self.mid as int, self.j as int)).to_multiset()
    }

    /// The sort can go on from here.
    pub open spec fn wf(&self) -> bool {
        self.shaped() && self.permutes()
    }

    /// The places `p` and `q` lie in one run of `w`.
    pub open spec fn together(p: int, q: int, w: int) -> bool {
        p / w == q / w
    }

    /// `dst[p]` was read from the pair of runs it was written to.
    pub open spec fn stays(&self, p: int) -> bool {
        exists|x: int| 0 <= x < self.n() && Self::together(x, p, 2 * self.width as int) && self.src@[x] == self.dst@[p]
    }

    /// Given a comparison that can be relied on: the runs are sorted, what was
    /// written is sorted, and comes before what is still to be written.
    pub open spec fn ordered(&self, lt: Less, reverse: bool) -> bool {
        let w = self.width as int;
        let n = self.n() as int;
        if self.done() {
            sorted(self.src@, lt, reverse)
        } else {
            &&& forall|p: int, q: int| 0 <= p < q < n && Self::together(p, q, w)
                ==> before(lt, reverse, #[trigger] self.src@[p] as int, #[trigger] self.src@[q] as int)
            &&& forall|p: int, q: int| 0 <= p < n && 0 <= q < n && p / w < q / w
                ==> #[trigger] self.src@[p] < #[trigger] self.src@[q]
            &&& forall|p: int, q: int| 0 <= p < q < self.lo && Self::together(p, q, 2 * w)
                ==> before(lt, reverse, #[trigger] self.dst@[p] as int, #[trigger] self.dst@[q] as int)
            &&& forall|p: int, q: int| self.lo <= p < q < self.k()
                ==> before(lt, reverse, #[trigger] self.dst@[p] as int, #[trigger] self.dst@[q] as int)
            &&& forall|p: int, q: int| self.lo <= p < self.k() && (self.i <= q < self.mid || self.j <= q < self.hi)
                ==> before(lt, reverse, #[trigger] self.dst@[p] as int, #[trigger] self.src@[q] as int)
            &&& forall|p: int| 0 <= p < self.k() ==> #[trigger] self.stays(p)
        }
    }

    /// Every two neighbours of a run were compared, and so were those of what
    /// was written, and the last that was written with what may come next.
    pub open spec fn chained(&self, c: Less) -> bool {
        let w = self.width as int;
        let n = self.n() as int;
        if self.done() {
            forall|p: int| 0 <= p < n - 1 ==> #[trigger] near(c, self.src@, p)
        } else {
            &&& forall|p: int| 0 <= p < n - 1 && Self::together(p, p + 1, w) ==> #[trigger] near(c, self.src@, p)
            &&& forall|p: int| 0 <= p < self.lo - 1 && Self::together(p, p + 1, 2 * w) ==> #[trigger] near(c, self.dst@, p)
            &&& forall|p: int| self.lo <= p < self.k() - 1 ==> #[trigger] near(c, self.dst@, p)
            &&& self.lo < self.k() && self.i < self.mid ==> met(c, self.dst@[self.k() - 1] as int, self.src@[self.i as int] as int)
            &&& self.lo < self.k() && self.j < self.hi ==> met(c, self.dst@[self.k() - 1] as int, self.src@[self.j as int] as int)
        }
    }

    /// How much is left to do: runs to double, pairs of runs, elements.
    pub open spec fn left(&self) -> (int, int, int) {
        if self.done() {
            (0, 0, 0)
        } else {
            (self.n() - self.width, self.n() - self.lo, self.mid - self.i + (self.hi - self.j))
        }
    }

    /// Whether nothing is merged yet.
    pub open spec fn fresh(&self) -> bool {
        self.width == 1 && self.lo == 0 && self.i == 0 && self.j == self.mid
    }

    /// How many more questions there can be: one for each place this pass has
    /// still to write, and one for each place in every pass after it.
    pub open spec fn budget(&self) -> int {
        if self.done() {
            0
        } else {
            self.n() - self.k() + self.n() * doublings(2 * self.width as int, self.n() as int)
        }
    }

    /// A sort of `n` places that has not begun.
    pub fn new(n: usize) -> (r: Merge)
        ensures
            r.wf(),
            r.fresh(),
            r.n() == n,
            forall|lt: Less, reverse: bool| #[trigger] r.ordered(lt, reverse),
            forall|c: Less| #[trigger] r.chained(c),
    {
        let mut src: Vec<usize> = Vec::new();
        let mut dst: Vec<usize> = Vec::new();
        let mut x: usize = 0;
        while x < n
            invariant
                x <= n,
                src.len() == x,
                dst.len() == x,
                forall|p: int| 0 <= p < x ==> src@[p] == p,
            decreases n - x,
        {
            src.push(x);
            dst.push(0);
            x += 1;
        }
        let mid: usize = if n < 1 { n } else { 1 };
        let hi: usize = if n < 2 { n } else { 2 };
        let r = Merge { src, dst, width: 1, lo: 0, mid, hi, i: 0, j: mid };
        proof {
            assert(src@ =~= counting(n as nat));
            assert(r.dst@.take(0) =~= Seq::empty());
            assert(r.src@.take(0) + r.src@.subrange(mid as int, mid as int) =~= Seq::empty());
        }
        r
    }
}

proof fn lemma_same_run(p: int, lo: int, w: int)
    requires w >= 1, lo % w == 0, lo <= p < lo + w, lo >= 0,
    ensures p / w == lo / w,
{
    vstd::arithmetic::div_mod::lemma_fundamental_div_mod(lo, w);
    let t = lo / w;
    assert(w * t == t * w) by (nonlinear_arith);
    vstd::arithmetic::div_mod::lemma_fundamental_div_mod_converse(p, w, t, p - lo);
}

/// A place before a run starts lies in an earlier run.
proof fn lemma_earlier_run(p: int, lo: int, w: int)
    requires w >= 1, lo % w == 0, 0 <= p < lo,
    ensures p / w < lo / w,
{
    vstd::arithmetic::div_mod::lemma_fundamental_div_mod(lo, w);
    vstd::arithmetic::div_mod::lemma_fundamental_div_mod(p, w);
    vstd::arithmetic::div_mod::lemma_mod_bound(p, w);
    let t = lo / w;
    let u = p / w;
    assert(u < t) by (nonlinear_arith)
        requires p < lo, lo == w * t, p == w * u + p % w, 0 <= p % w, w >= 1;
}

proof fn lemma_half(lo: int, w: int)
    requires w >= 1, lo % (2 * w) == 0, lo >= 0,
    ensures lo % w == 0, (lo + w) % w == 0, (lo + 2 * w) % (2 * w) == 0,
{
    vstd::arithmetic::div_mod::lemma_fundamental_div_mod(lo, 2 * w);
    let t = lo / (2 * w);
    assert(lo == (2 * t) * w) by (nonlinear_arith) requires lo == (2 * w) * t;
    vstd::arithmetic::div_mod::lemma_mod_multiples_basic(2 * t, w);
    assert(lo + w == (2 * t + 1) * w) by (nonlinear_arith) requires lo == (2 * w) * t;
    vstd::arithmetic::div_mod::lemma_mod_multiples_basic(2 * t + 1, w);
    assert(lo + 2 * w == (t + 1) * (2 * w)) by (nonlinear_arith) requires lo == (2 * w) * t;
    vstd::arithmetic::div_mod::lemma_mod_multiples_basic(t + 1, 2 * w);
}

/// Runs of a pass nest in those of the next.
proof fn lemma_nested(x: int, y: int, w: int)
    requires w >= 1, x >= 0, y >= 0, x / (2 * w) < y / (2 * w),
    ensures x / w < y / w,
{
    vstd::arithmetic::div_mod::lemma_div_denominator(x, w, 2);
    vstd::arithmetic::div_mod::lemma_div_denominator(y, w, 2);
    assert(w * 2 == 2 * w);
}

impl Merge {
    /// Write the next element of the left run.
    fn take_left(&mut self)
        requires
            old(self).wf(),
            !old(self).done(),
            old(self).lo < old(self).n(),
            old(self).i < old(self).mid,
        ensures
            final(self).wf(),
            final(self).src == old(self).src,
            final(self).i == old(self).i + 1,
            *final(self) == (Merge { dst: final(self).dst, i: final(self).i, ..*old(self) }),
            forall|lt: Less, reverse: bool|
                weak_order(lt) && #[trigger] old(self).ordered(lt, reverse)
                && (old(self).j < old(self).hi ==> !lesser(lt, reverse, old(self).src@[old(self).j as int] as int, old(self).src@[old(self).i as int] as int))
                ==> final(self).ordered(lt, reverse),
            forall|c: Less| #[trigger] old(self).chained(c)
                && (old(self).j < old(self).hi ==> met(c, old(self).src@[old(self).i as int] as int, old(self).src@[old(self).j as int] as int))
                ==> final(self).chained(c),
    {
        let ghost m = *self;
        let k: usize = self.i + (self.j - self.mid);
        let e = self.src[self.i];
        self.dst.set(k, e);
        self.i = self.i + 1;
        proof {
            let right = m.src@.subrange(m.mid as int, m.j as int);
            assert(self.dst@.take(k + 1) =~= m.dst@.take(k as int).push(e));
            vstd::seq_lib::to_multiset_build(m.dst@.take(k as int), e);
            let lft = m.src@.take(m.i as int);
            assert(m.src@.take(m.i + 1) + right =~= lft.push(e) + right);
            vstd::seq_lib::lemma_seq_union_to_multiset_commutative(lft.push(e), right);
            assert(right + lft.push(e) =~= (right + lft).push(e));
            vstd::seq_lib::lemma_seq_union_to_multiset_commutative(lft, right);
            vstd::seq_lib::to_multiset_build(right + lft, e);
            assert forall|lt: Less, reverse: bool|
                weak_order(lt) && #[trigger] m.ordered(lt, reverse) && (m.j < m.hi ==> !lesser(lt, reverse, m.src@[m.j as int] as int, m.src@[m.i as int] as int))
                implies self.ordered(lt, reverse) by {
                m.lemma_take_left(*self, lt, reverse);
            }
            assert forall|c: Less| #[trigger] m.chained(c)
                && (m.j < m.hi ==> met(c, m.src@[m.i as int] as int, m.src@[m.j as int] as int)) implies self.chained(c) by {
                m.lemma_chain_left(*self, c);
            }
        }
    }

    proof fn lemma_take_left(self, to: Merge, lt: Less, reverse: bool)
        requires
            self.wf(),
            !self.done(),
            self.lo < self.n(),
            self.i < self.mid,
            weak_order(lt),
            self.ordered(lt, reverse),
            (self.j < self.hi ==> !lesser(lt, reverse, self.src@[self.j as int] as int, self.src@[self.i as int] as int)),
            to == (Merge { dst: to.dst, i: (self.i + 1) as usize, ..self }),
            to.dst@ == self.dst@.update(self.k(), self.src@[self.i as int]),
        ensures to.ordered(lt, reverse),
    {
        let w = self.width as int;
        let n = self.n() as int;
        let e = self.src@[self.i as int] as int;
        let k = self.k();
        lemma_half(self.lo as int, w);
        assert forall|q: int| (to.i <= q < to.mid || to.j <= q < to.hi) implies before(lt, reverse, e, #[trigger] self.src@[q] as int) by {
            if self.i < self.mid {
                lemma_same_run(self.i as int, self.lo as int, w);
            }
            if self.j < self.hi {
                lemma_same_run(self.j as int, self.mid as int, w);
            }
            if q < self.mid {
                lemma_same_run(q, self.lo as int, w);
            } else {
                lemma_same_run(q, self.mid as int, w);
            }
            let l = self.src@[self.i as int] as int;
            let r = self.src@[self.j as int] as int;
            if self.i < self.mid && self.j < self.hi {
                lemma_earlier_run(self.i as int, self.mid as int, w);
                assert(l < r);
            }
            if self.mid <= q {
                assert(before(lt, reverse, l, r));
                if q > self.j {
                    assert(before(lt, reverse, r, self.src@[q] as int));
                    lemma_before_transitive(lt, reverse, l, r, self.src@[q] as int);
                }
            }
        }
        assert forall|p: int| 0 <= p < to.k() implies #[trigger] to.stays(p) by {
            if p < k {
                assert(self.stays(p));
                let x = choose|x: int| 0 <= x < self.n() && Self::together(x, p, 2 * w) && self.src@[x] == self.dst@[p];
                assert(to.src@[x] == to.dst@[p]);
            } else {
                lemma_same_run(p, self.lo as int, 2 * w);
                lemma_same_run(self.i as int, self.lo as int, 2 * w);
                assert(to.src@[self.i as int] == to.dst@[p]);
            }
        }
        assert forall|p: int, q: int| to.lo <= p < q < to.k() implies before(lt, reverse, #[trigger] to.dst@[p] as int, #[trigger] to.dst@[q] as int) by {
            if q == k {
                assert(before(lt, reverse, self.dst@[p] as int, self.src@[self.i as int] as int));
            } else {
                assert(before(lt, reverse, self.dst@[p] as int, self.dst@[q] as int));
            }
        }
        assert forall|p: int, q: int| to.lo <= p < to.k() && (to.i <= q < to.mid || to.j <= q < to.hi)
            implies before(lt, reverse, #[trigger] to.dst@[p] as int, #[trigger] to.src@[q] as int) by {
            if p < k {
                assert(before(lt, reverse, self.dst@[p] as int, self.src@[q] as int));
            }
        }
        assert forall|p: int, q: int| 0 <= p < q < to.lo && Self::together(p, q, 2 * w)
            implies before(lt, reverse, #[trigger] to.dst@[p] as int, #[trigger] to.dst@[q] as int) by {
            assert(before(lt, reverse, self.dst@[p] as int, self.dst@[q] as int));
        }
    }

    /// Write the next element of the right run.
    fn take_right(&mut self)
        requires
            old(self).wf(),
            !old(self).done(),
            old(self).lo < old(self).n(),
            old(self).j < old(self).hi,
        ensures
            final(self).wf(),
            final(self).src == old(self).src,
            final(self).j == old(self).j + 1,
            *final(self) == (Merge { dst: final(self).dst, j: final(self).j, ..*old(self) }),
            forall|lt: Less, reverse: bool|
                weak_order(lt) && #[trigger] old(self).ordered(lt, reverse)
                && (old(self).i < old(self).mid ==> lesser(lt, reverse, old(self).src@[old(self).j as int] as int, old(self).src@[old(self).i as int] as int))
                ==> final(self).ordered(lt, reverse),
            forall|c: Less| #[trigger] old(self).chained(c)
                && (old(self).i < old(self).mid ==> met(c, old(self).src@[old(self).i as int] as int, old(self).src@[old(self).j as int] as int))
                ==> final(self).chained(c),
    {
        let ghost m = *self;
        let k: usize = self.i + (self.j - self.mid);
        let e = self.src[self.j];
        self.dst.set(k, e);
        self.j = self.j + 1;
        proof {
            let right = m.src@.subrange(m.mid as int, m.j as int);
            assert(self.dst@.take(k + 1) =~= m.dst@.take(k as int).push(e));
            vstd::seq_lib::to_multiset_build(m.dst@.take(k as int), e);
            assert(m.src@.subrange(m.mid as int, m.j + 1) =~= right.push(e));
            assert(m.src@.take(m.i as int) + right.push(e) =~= (m.src@.take(m.i as int) + right).push(e));
            vstd::seq_lib::to_multiset_build(m.src@.take(m.i as int) + right, e);
            assert forall|lt: Less, reverse: bool|
                weak_order(lt) && #[trigger] m.ordered(lt, reverse) && (m.i < m.mid ==> lesser(lt, reverse, m.src@[m.j as int] as int, m.src@[m.i as int] as int))
                implies self.ordered(lt, reverse) by {
                m.lemma_take_right(*self, lt, reverse);
            }
            assert forall|c: Less| #[trigger] m.chained(c)
                && (m.i < m.mid ==> met(c, m.src@[m.i as int] as int, m.src@[m.j as int] as int)) implies self.chained(c) by {
                m.lemma_chain_right(*self, c);
            }
        }
    }

    proof fn lemma_take_right(self, to: Merge, lt: Less, reverse: bool)
        requires
            self.wf(),
            !self.done(),
            self.lo < self.n(),
            self.j < self.hi,
            weak_order(lt),
            self.ordered(lt, reverse),
            (self.i < self.mid ==> lesser(lt, reverse, self.src@[self.j as int] as int, self.src@[self.i as int] as int)),
            to == (Merge { dst: to.dst, j: (self.j + 1) as usize, ..self }),
            to.dst@ == self.dst@.update(self.k(), self.src@[self.j as int]),
        ensures to.ordered(lt, reverse),
    {
        let w = self.width as int;
        let n = self.n() as int;
        let e = self.src@[self.j as int] as int;
        let k = self.k();
        lemma_half(self.lo as int, w);
        assert forall|q: int| (to.i <= q < to.mid || to.j <= q < to.hi) implies before(lt, reverse, e, #[trigger] self.src@[q] as int) by {
            if self.i < self.mid {
                lemma_same_run(self.i as int, self.lo as int, w);
            }
            if self.j < self.hi {
                lemma_same_run(self.j as int, self.mid as int, w);
            }
            if q < self.mid {
                lemma_same_run(q, self.lo as int, w);
            } else {
                lemma_same_run(q, self.mid as int, w);
            }
            let l = self.src@[self.i as int] as int;
            let r = self.src@[self.j as int] as int;
            if self.i < self.mid && self.j < self.hi {
                lemma_earlier_run(self.i as int, self.mid as int, w);
                assert(l < r);
            }
            if q < self.mid {
                assert(lt(l, r) ==> !lt(r, l));
                assert(before(lt, reverse, r, l));
                if q > self.i {
                    assert(before(lt, reverse, l, self.src@[q] as int));
                    lemma_before_transitive(lt, reverse, r, l, self.src@[q] as int);
                }
            }
        }
        assert forall|p: int| 0 <= p < to.k() implies #[trigger] to.stays(p) by {
            if p < k {
                assert(self.stays(p));
                let x = choose|x: int| 0 <= x < self.n() && Self::together(x, p, 2 * w) && self.src@[x] == self.dst@[p];
                assert(to.src@[x] == to.dst@[p]);
            } else {
                lemma_same_run(p, self.lo as int, 2 * w);
                lemma_same_run(self.j as int, self.lo as int, 2 * w);
                assert(to.src@[self.j as int] == to.dst@[p]);
            }
        }
        assert forall|p: int, q: int| to.lo <= p < q < to.k() implies before(lt, reverse, #[trigger] to.dst@[p] as int, #[trigger] to.dst@[q] as int) by {
            if q == k {
                assert(before(lt, reverse, self.dst@[p] as int, self.src@[self.j as int] as int));
            } else {
                assert(before(lt, reverse, self.dst@[p] as int, self.dst@[q] as int));
            }
        }
        assert forall|p: int, q: int| to.lo <= p < to.k() && (to.i <= q < to.mid || to.j <= q < to.hi)
            implies before(lt, reverse, #[trigger] to.dst@[p] as int, #[trigger] to.src@[q] as int) by {
            if p < k {
                assert(before(lt, reverse, self.dst@[p] as int, self.src@[q] as int));
            }
        }
        assert forall|p: int, q: int| 0 <= p < q < to.lo && Self::together(p, q, 2 * w)
            implies before(lt, reverse, #[trigger] to.dst@[p] as int, #[trigger] to.dst@[q] as int) by {
            assert(before(lt, reverse, self.dst@[p] as int, self.dst@[q] as int));
        }
    }

    proof fn lemma_chain_left(self, to: Merge, c: Less)
        requires
            self.wf(),
            !self.done(),
            self.lo < self.n(),
            self.i < self.mid,
            self.chained(c),
            self.j < self.hi ==> met(c, self.src@[self.i as int] as int, self.src@[self.j as int] as int),
            to.dst@ == self.dst@.update(self.k(), self.src@[self.i as int]),
            to.i == self.i + 1,
            to == (Merge { dst: to.dst, i: to.i, ..self }),
        ensures to.chained(c),
    {
        let w = self.width as int;
        let k = self.k();
        assert forall|p: int| 0 <= p < to.lo - 1 && Self::together(p, p + 1, 2 * w) implies #[trigger] near(c, to.dst@, p) by {
            assert(near(c, self.dst@, p));
        }
        assert forall|p: int| to.lo <= p < to.k() - 1 implies #[trigger] near(c, to.dst@, p) by {
            if p < k - 1 {
                assert(near(c, self.dst@, p));
            }
        }
        if to.i < to.mid {
            lemma_half(self.lo as int, w);
            lemma_same_run(self.i as int, self.lo as int, w);
            lemma_same_run(self.i + 1, self.lo as int, w);
            assert(near(c, self.src@, self.i as int));
        }
    }

    proof fn lemma_chain_right(self, to: Merge, c: Less)
        requires
            self.wf(),
            !self.done(),
            self.lo < self.n(),
            self.j < self.hi,
            self.chained(c),
            self.i < self.mid ==> met(c, self.src@[self.i as int] as int, self.src@[self.j as int] as int),
            to.dst@ == self.dst@.update(self.k(), self.src@[self.j as int]),
            to.j == self.j + 1,
            to == (Merge { dst: to.dst, j: to.j, ..self }),
        ensures to.chained(c),
    {
        let w = self.width as int;
        let k = self.k();
        assert forall|p: int| 0 <= p < to.lo - 1 && Self::together(p, p + 1, 2 * w) implies #[trigger] near(c, to.dst@, p) by {
            assert(near(c, self.dst@, p));
        }
        assert forall|p: int| to.lo <= p < to.k() - 1 implies #[trigger] near(c, to.dst@, p) by {
            if p < k - 1 {
                assert(near(c, self.dst@, p));
            }
        }
        if to.j < to.hi {
            lemma_half(self.lo as int, w);
            lemma_same_run(self.j as int, self.lo + w, w);
            lemma_same_run(self.j + 1, self.lo + w, w);
            assert(near(c, self.src@, self.j as int));
        }
    }

    /// Line up the next pair of runs.
    fn next_pair(&mut self)
        requires
            old(self).wf(),
            !old(self).done(),
            old(self).lo < old(self).n(),
            old(self).i == old(self).mid,
            old(self).j == old(self).hi,
        ensures
            final(self).wf(),
            final(self).src == old(self).src,
            final(self).width == old(self).width,
            final(self).lo == old(self).hi,
            final(self).lo > old(self).lo,
            final(self).budget() == old(self).budget(),
            forall|lt: Less, reverse: bool| #[trigger] old(self).ordered(lt, reverse) ==> final(self).ordered(lt, reverse),
            forall|c: Less| #[trigger] old(self).chained(c) ==> final(self).chained(c),
    {
        let ghost m = *self;
        let n = self.src.len();
        proof {
            lemma_half(m.lo as int, m.width as int);
            assert(m.k() == m.hi);
            assert(m.src@.take(m.mid as int) + m.src@.subrange(m.mid as int, m.hi as int) =~= m.src@.take(m.hi as int));
        }
        self.lo = self.hi;
        if self.lo < n {
            self.mid = if self.width >= n - self.lo { n } else { self.lo + self.width };
            self.hi = if self.width >= n - self.mid { n } else { self.mid + self.width };
            self.i = self.lo;
            self.j = self.mid;
            proof {
                assert(self.src@.take(self.i as int) + self.src@.subrange(self.mid as int, self.j as int)
                    =~= m.src@.take(m.hi as int));
                assert(self.k() == m.hi);
            }
        }
        proof {
            assert forall|lt: Less, reverse: bool| #[trigger] m.ordered(lt, reverse) implies self.ordered(lt, reverse) by {
                let w = m.width as int;
                assert forall|p: int, q: int| 0 <= p < q < self.lo && Self::together(p, q, 2 * w)
                    implies before(lt, reverse, #[trigger] self.dst@[p] as int, #[trigger] self.dst@[q] as int) by {
                    if q >= m.lo && p < m.lo {
                        lemma_earlier_run(p, m.lo as int, 2 * w);
                        lemma_same_run(q, m.lo as int, 2 * w);
                    }
                }
                assert forall|p: int| 0 <= p < self.k() implies #[trigger] self.stays(p) by {
                    assert(m.stays(p));
                    let x = choose|x: int| 0 <= x < m.n() && Self::together(x, p, 2 * w) && m.src@[x] == m.dst@[p];
                    assert(self.src@[x] == self.dst@[p]);
                }
            }
            assert forall|c: Less| #[trigger] m.chained(c) implies self.chained(c) by {
                let w = m.width as int;
                assert forall|p: int| 0 <= p < self.lo - 1 && Self::together(p, p + 1, 2 * w) implies #[trigger] near(c, self.dst@, p) by {
                    if p < m.lo && p + 1 >= m.lo {
                        lemma_earlier_run(p, m.lo as int, 2 * w);
                        lemma_same_run(p + 1, m.lo as int, 2 * w);
                    }
                    assert(near(c, m.dst@, p));
                }
            }
        }
    }

    proof fn lemma_next_budget(self, to: Merge)
        requires
            self.shaped(),
            !self.done(),
            self.lo == self.n(),
            to.n() == self.n(),
            2 * self.width < self.n() ==> to.width == 2 * self.width && to.k() == 0,
            2 * self.width >= self.n() ==> to.done(),
        ensures to.budget() == self.budget(),
    {
        let n = self.n() as int;
        let w = self.width as int;
        if 2 * w < n {
            assert(n * (1 + doublings(2 * (2 * w), n)) == n + n * doublings(2 * (2 * w), n)) by (nonlinear_arith);
        } else {
            assert(n * 0 == 0);
        }
    }

    /// What this pass wrote is what the next one reads.
    fn next_pass(&mut self)
        requires
            old(self).wf(),
            !old(self).done(),
            old(self).lo == old(self).n(),
        ensures
            final(self).wf(),
            final(self).n() == old(self).n(),
            final(self).width > old(self).width,
            final(self).budget() == old(self).budget(),
            forall|lt: Less, reverse: bool| #[trigger] old(self).ordered(lt, reverse) ==> final(self).ordered(lt, reverse),
            forall|c: Less| #[trigger] old(self).chained(c) ==> final(self).chained(c),
    {
        let ghost m = *self;
        let n = self.src.len();
        std::mem::swap(&mut self.src, &mut self.dst);
        let doubles: bool = self.width < n - self.width;
        self.width = if doubles { 2 * self.width } else { n };
        proof {
            assert(m.k() == n);
            assert(m.dst@.take(n as int) =~= m.dst@);
            assert(m.src@.take(m.mid as int) + m.src@.subrange(m.mid as int, m.hi as int) =~= m.src@);
        }
        if doubles {
            self.lo = 0;
            self.mid = if self.width >= n { n } else { self.width };
            self.hi = if self.width >= n - self.mid { n } else { self.mid + self.width };
            self.i = 0;
            self.j = self.mid;
            proof {
                assert(self.dst@.take(0) =~= Seq::empty());
                assert(self.src@.take(0) + self.src@.subrange(self.mid as int, self.j as int) =~= Seq::empty());
            }
        }
        proof {
            assert forall|lt: Less, reverse: bool| #[trigger] m.ordered(lt, reverse) implies self.ordered(lt, reverse) by {
                let w = m.width as int;
                if doubles {
                    assert forall|p: int, q: int| 0 <= p < n && 0 <= q < n && p / (2 * w) < q / (2 * w)
                        implies #[trigger] self.src@[p] < #[trigger] self.src@[q] by {
                        assert(m.stays(p));
                        assert(m.stays(q));
                        let x = choose|x: int| 0 <= x < m.n() && Self::together(x, p, 2 * w) && m.src@[x] == m.dst@[p];
                        let y = choose|y: int| 0 <= y < m.n() && Self::together(y, q, 2 * w) && m.src@[y] == m.dst@[q];
                        lemma_nested(x, y, w);
                        assert(m.src@[x] < m.src@[y]);
                    }
                } else {
                    assert forall|p: int, q: int| 0 <= p < q < n
                        implies before(lt, reverse, #[trigger] self.src@[p] as int, #[trigger] self.src@[q] as int) by {
                        lemma_same_run(p, 0, 2 * w);
                        lemma_same_run(q, 0, 2 * w);
                        assert(before(lt, reverse, m.dst@[p] as int, m.dst@[q] as int));
                    }
                }
            }
            m.lemma_next_budget(*self);
            assert forall|c: Less| #[trigger] m.chained(c) implies self.chained(c) by {
                let w = m.width as int;
                assert forall|p: int| 0 <= p < n - 1 && (doubles ==> Self::together(p, p + 1, 2 * w)) implies #[trigger] near(c, self.src@, p) by {
                    if !doubles {
                        lemma_same_run(p, 0, 2 * w);
                        lemma_same_run(p + 1, 0, 2 * w);
                    }
                    assert(near(c, m.dst@, p));
                }
            }
        }
    }

    /// Whether the sort waits for a comparison.
    pub open spec fn asks(&self) -> bool {
        !self.done() && self.lo < self.n() && self.i < self.mid && self.j < self.hi
    }

    /// The question it waits for the answer of: whether the first of these
    /// places is less than the second. Yes takes from the right run.
    pub open spec fn question(&self, reverse: bool) -> (int, int) {
        let l = self.src@[self.i as int] as int;
        let r = self.src@[self.j as int] as int;
        if reverse { (l, r) } else { (r, l) }
    }

    /// Take an answer in, and go on to the next question.
    pub fn step(&mut self, reverse: bool, answer: Option<bool>) -> (r: Option<(usize, usize)>)
        requires
            old(self).wf(),
            answer is Some ==> old(self).asks(),
        ensures
            final(self).wf(),
            final(self).n() == old(self).n(),
            match r {
                Some((a, b)) => final(self).asks() && (a as int, b as int) == final(self).question(reverse)
                    && a < final(self).n() && b < final(self).n(),
                None => final(self).done(),
            },
            answer is Some ==> closer(old(self).left(), final(self).left()),
            final(self).budget() <= old(self).budget() - (if answer is Some { 1int } else { 0 }),
            forall|lt: Less| weak_order(lt) && #[trigger] old(self).ordered(lt, reverse)
                && (answer matches Some(yes) ==> yes == lt(old(self).question(reverse).0, old(self).question(reverse).1))
                ==> final(self).ordered(lt, reverse),
            forall|c: Less| #[trigger] old(self).chained(c)
                && (answer is Some ==> met(c, old(self).question(reverse).0, old(self).question(reverse).1))
                ==> final(self).chained(c),
    {
        let ghost m = *self;
        match answer {
            Some(yes) => {
                if yes {
                    self.take_right();
                } else {
                    self.take_left();
                }
            }
            None => {}
        }
        let n = self.src.len();
        loop
            invariant
                self.wf(),
                m == *old(self),
                self.n() == m.n(),
                n == self.n(),
                answer is Some ==> closer(m.left(), self.left()),
                self.budget() <= m.budget() - (if answer is Some { 1int } else { 0 }),
                forall|lt: Less| weak_order(lt) && #[trigger] m.ordered(lt, reverse)
                    && (answer matches Some(yes) ==> yes == lt(m.question(reverse).0, m.question(reverse).1))
                    ==> self.ordered(lt, reverse),
                forall|c: Less| #[trigger] m.chained(c)
                    && (answer is Some ==> met(c, m.question(reverse).0, m.question(reverse).1))
                    ==> self.chained(c),
            decreases self.left().0, self.left().1, self.left().2,
        {
            if self.width >= n {
                return None;
            }
            if self.lo >= n {
                self.next_pass();
                continue;
            }
            if self.i < self.mid && self.j < self.hi {
                let l = self.src[self.i];
                let r = self.src[self.j];
                proof {
                    self.lemma_in_range(self.i as int);
                    self.lemma_in_range(self.j as int);
                }
                return if reverse { Some((l, r)) } else { Some((r, l)) };
            }
            if self.i < self.mid {
                self.take_left();
            } else if self.j < self.hi {
                self.take_right();
            } else {
                self.next_pair();
            }
        }
    }

    /// The places that are permuted are those below `n`.
    pub proof fn lemma_in_range(self, p: int)
        requires self.wf(), 0 <= p < self.n(),
        ensures self.src@[p] < self.n(),
    {
        broadcast use vstd::seq_lib::group_to_multiset_ensures;
        let c = counting(self.n());
        assert(self.src@.contains(self.src@[p]));
        assert(self.src@.to_multiset().count(self.src@[p]) > 0);
        assert(c.contains(self.src@[p]));
    }
}

/// A merge sort in progress that can always go on.
#[derive(Debug)]
pub struct Sorter {
    merge: Merge,
}

impl Sorter {
    #[verifier::type_invariant]
    spec fn inv(self) -> bool {
        self.merge.wf()
    }

    /// How far the sort has come.
    pub closed spec fn state(&self) -> Merge {
        self.merge
    }

    /// A sort of `n` places that has not begun.
    pub fn new(n: usize) -> (r: Sorter)
        ensures
            r.state().wf(),
            r.state().fresh(),
            r.state().n() == n,
            forall|lt: Less, reverse: bool| #[trigger] r.state().ordered(lt, reverse),
            forall|c: Less| #[trigger] r.state().chained(c),
    {
        Sorter { merge: Merge::new(n) }
    }

    /// How many places are sorted.
    pub fn len(&self) -> (r: usize)
        ensures r == self.state().n(),
    {
        self.merge.src.len()
    }

    /// Whether the sort waits for a comparison.
    pub fn waits(&self) -> (r: bool)
        ensures r == self.state().asks(),
    {
        let n = self.merge.src.len();
        self.merge.width < n && self.merge.lo < n && self.merge.i < self.merge.mid && self.merge.j < self.merge.hi
    }

    /// Take an answer in, where one is waited for, and go on to the next
    /// question.
    pub fn step(self, reverse: bool, answer: Option<bool>) -> (r: (Sorter, Option<(usize, usize)>))
        ensures
            sort_step(self.state(), r.0.state(), reverse, answer, r.1),
            self.state().wf(),
            r.0.state().wf(),
    {
        proof { use_type_invariant(&self); }
        let given = if self.waits() { answer } else { None };
        let mut m = self.merge;
        let r = m.step(reverse, given);
        (Sorter { merge: m }, r)
    }

    /// The places in the order the sort left them.
    pub fn places(&self) -> (r: Vec<usize>)
        ensures
            r@ == self.state().src@,
            self.state().wf(),
            forall|k: int| 0 <= k < r@.len() ==> #[trigger] r@[k] < self.state().n(),
    {
        proof {
            use_type_invariant(self);
            assert forall|k: int| 0 <= k < self.merge.src@.len() implies #[trigger] self.merge.src@[k] < self.merge.n() by {
                self.merge.lemma_in_range(k);
            }
        }
        crate::bind::copy_handles(&self.merge.src)
    }
}

/// What one step of a sort does.
pub open spec fn sort_step(a: Merge, b: Merge, reverse: bool, answer: Option<bool>, r: Option<(usize, usize)>) -> bool {
    let given = if a.asks() { answer } else { None };
    &&& b.n() == a.n()
    &&& match r {
        Some((x, y)) => b.asks() && (x as int, y as int) == b.question(reverse) && x < b.n() && y < b.n(),
        None => b.done(),
    }
    &&& given is Some ==> closer(a.left(), b.left())
    &&& b.budget() <= a.budget() - (if given is Some { 1int } else { 0 })
    &&& forall|lt: Less| weak_order(lt) && #[trigger] a.ordered(lt, reverse)
        && (given matches Some(yes) ==> yes == lt(a.question(reverse).0, a.question(reverse).1))
        ==> b.ordered(lt, reverse)
    &&& forall|c: Less| #[trigger] a.chained(c) && (given is Some ==> met(c, a.question(reverse).0, a.question(reverse).1))
        ==> b.chained(c)
}

/// A finished sort holds every place once, in the stable order of any
/// comparison that its answers came from.
pub proof fn sort_is_stable_and_complete(m: Merge, lt: Less, reverse: bool)
    requires m.wf(), m.done(), m.ordered(lt, reverse),
    ensures
        sorted(m.src@, lt, reverse),
        m.src@.to_multiset() == counting(m.n()).to_multiset(),
{
}

/// How many of the first `n` steps took an answer in.
pub open spec fn questions(ms: Seq<Merge>, answers: Seq<Option<bool>>, n: int) -> nat
    decreases n,
{
    if n <= 0 {
        0
    } else {
        questions(ms, answers, n - 1) + (if ms[n - 1].asks() && answers[n - 1] is Some { 1nat } else { 0 })
    }
}

/// Step `i` of a sort leads from one of these states to the next.
pub open spec fn stepped(ms: Seq<Merge>, answers: Seq<Option<bool>>, reverse: bool, i: int) -> bool {
    exists|r: Option<(usize, usize)>| #[trigger] sort_step(ms[i], ms[i + 1], reverse, answers[i], r)
}

/// A sort of `n` places asks at most `n` times the logarithm of `n` questions,
/// whatever the answers are.
pub proof fn sorts_ask_few_questions(ms: Seq<Merge>, answers: Seq<Option<bool>>, reverse: bool)
    requires
        ms.len() == answers.len() + 1,
        ms[0].fresh(),
        forall|i: int| 0 <= i < ms.len() ==> (#[trigger] ms[i]).wf(),
        forall|i: int| 0 <= i < answers.len() ==> #[trigger] stepped(ms, answers, reverse, i),
    ensures questions(ms, answers, answers.len() as int) <= ms[0].n() * log2_ceil(ms[0].n()),
{
    let n = ms[0].n();
    lemma_budget_left(ms, answers, reverse, answers.len() as int);
    let last = ms[answers.len() as int];
    assert(last.wf());
    assert(last.n() * doublings(2 * last.width as int, last.n() as int) >= 0) by (nonlinear_arith);
    assert(ms[0].wf());
    assert(n * (1 + doublings(2, n as int)) == n + n * doublings(2, n as int)) by (nonlinear_arith);
    assert(n * 0 == 0);
    assert(ms[0].budget() == n * log2_ceil(n));
}

proof fn lemma_budget_left(ms: Seq<Merge>, answers: Seq<Option<bool>>, reverse: bool, n: int)
    requires
        0 <= n < ms.len(),
        ms.len() == answers.len() + 1,
        forall|i: int| 0 <= i < answers.len() ==> #[trigger] stepped(ms, answers, reverse, i),
    ensures
        ms[n].budget() + questions(ms, answers, n) <= ms[0].budget(),
    decreases n,
{
    if n > 0 {
        lemma_budget_left(ms, answers, reverse, n - 1);
        assert(stepped(ms, answers, reverse, n - 1));
    }
}

/// The answer of step `i`, where one is taken in, is what the comparison says.
pub open spec fn answered_by(ms: Seq<Merge>, answers: Seq<Option<bool>>, lt: Less, reverse: bool, i: int) -> bool {
    ms[i].asks() ==> (answers[i] matches Some(yes) ==> yes == lt(ms[i].question(reverse).0, ms[i].question(reverse).1))
}

/// A sort whose every question is answered by one comparison ends with each
/// place once, in the stable order of that comparison.
pub proof fn sorts_end_in_order(ms: Seq<Merge>, answers: Seq<Option<bool>>, lt: Less, reverse: bool)
    requires
        ms.len() == answers.len() + 1,
        ms[0].ordered(lt, reverse),
        weak_order(lt),
        forall|i: int| 0 <= i < ms.len() ==> (#[trigger] ms[i]).wf(),
        forall|i: int| 0 <= i < answers.len() ==> #[trigger] stepped(ms, answers, reverse, i),
        forall|i: int| 0 <= i < answers.len() ==> #[trigger] answered_by(ms, answers, lt, reverse, i),
    ensures
        ms.last().n() == ms[0].n(),
        ms.last().done() ==> sorted(ms.last().src@, lt, reverse)
            && ms.last().src@.to_multiset() == counting(ms[0].n()).to_multiset(),
{
    lemma_stays_ordered(ms, answers, lt, reverse, answers.len() as int);
    assert(ms.last().wf());
}

proof fn lemma_stays_ordered(ms: Seq<Merge>, answers: Seq<Option<bool>>, lt: Less, reverse: bool, n: int)
    requires
        0 <= n < ms.len(),
        ms.len() == answers.len() + 1,
        ms[0].ordered(lt, reverse),
        weak_order(lt),
        forall|i: int| 0 <= i < answers.len() ==> #[trigger] stepped(ms, answers, reverse, i),
        forall|i: int| 0 <= i < answers.len() ==> #[trigger] answered_by(ms, answers, lt, reverse, i),
    ensures ms[n].ordered(lt, reverse), ms[n].n() == ms[0].n(),
    decreases n,
{
    if n > 0 {
        lemma_stays_ordered(ms, answers, lt, reverse, n - 1);
        assert(stepped(ms, answers, reverse, n - 1));
        assert(answered_by(ms, answers, lt, reverse, n - 1));
    }
}

/// The logarithm is the least power of two that reaches `n`.
pub proof fn the_logarithm_is_rounded_up(n: nat)
    ensures
        n <= pow(2, log2_ceil(n)) || n == 0,
        n > 1 ==> pow(2, (log2_ceil(n) - 1) as nat) < n,
{
    lemma_pow0(2);
    lemma_doublings(1, n as int, 0);
}

proof fn lemma_doublings(w: int, n: int, e: nat)
    requires w == pow(2, e), w >= 1,
    ensures
        w < n ==> n <= pow(2, e + doublings(w, n)) && pow(2, (e + doublings(w, n) - 1) as nat) < n,
        w >= n ==> doublings(w, n) == 0,
    decreases (if w < n { n - w } else { 0 }),
{
    if w < n {
        assert(pow(2, e + 1) == 2 * w) by {
            reveal(pow);
        }
        lemma_doublings(2 * w, n, e + 1);
        assert(e + 1 + doublings(2 * w, n) == e + doublings(w, n));
    }
}

} // verus!
