//! Integers of any size: a sign and a magnitude in 32-bit limbs, least
//! significant first. Leading zero limbs are allowed and mean nothing.
use vstd::prelude::*;
use vstd::arithmetic::power::*;
use crate::text::{int_text, nat_text, render_u64};

verus! {

/// The radix a limb counts in.
pub open spec fn radix() -> int {
    0x1_0000_0000
}

/// The radix to the power `n`.
pub open spec fn rpow(n: nat) -> int
    decreases n,
{
    if n == 0 { 1 } else { radix() * rpow((n - 1) as nat) }
}

/// The number that the limbs `s` write down.
pub open spec fn mag(s: Seq<u32>) -> int
    decreases s.len(),
{
    if s.len() == 0 {
        0
    } else {
        mag(s.drop_last()) + s.last() as int * rpow((s.len() - 1) as nat)
    }
}

/// An integer of any size.
#[derive(Debug)]
pub struct BigInt {
    pub negative: bool,
    pub limbs: Vec<u32>,
}

impl View for BigInt {
    type V = int;

    open spec fn view(&self) -> int {
        if self.negative { -mag(self.limbs@) } else { mag(self.limbs@) }
    }
}

proof fn lemma_rpow_pos(n: nat)
    ensures rpow(n) > 0,
    decreases n,
{
    if n > 0 {
        lemma_rpow_pos((n - 1) as nat);
        assert(radix() * rpow((n - 1) as nat) > 0) by (nonlinear_arith)
            requires rpow((n - 1) as nat) > 0, radix() == 0x1_0000_0000;
    }
}

proof fn lemma_rpow_add(a: nat, b: nat)
    ensures rpow(a + b) == rpow(a) * rpow(b),
    decreases a,
{
    if a == 0 {
        assert(rpow(0) == 1);
    } else {
        lemma_rpow_add((a - 1) as nat, b);
        assert((a + b - 1) as nat == (a - 1) as nat + b);
        assert(radix() * (rpow((a - 1) as nat) * rpow(b)) == (radix() * rpow((a - 1) as nat))
            * rpow(b)) by (nonlinear_arith);
    }
}

/// A magnitude of `n` limbs is below the radix to the power `n`.
proof fn lemma_mag_bound(s: Seq<u32>)
    ensures 0 <= mag(s) < rpow(s.len()),
    decreases s.len(),
{
    if s.len() > 0 {
        lemma_mag_bound(s.drop_last());
        let p = rpow((s.len() - 1) as nat);
        let d = s.last() as int;
        lemma_rpow_pos((s.len() - 1) as nat);
        assert(0 <= d * p <= (radix() - 1) * p) by (nonlinear_arith)
            requires 0 <= d <= radix() - 1, p > 0, radix() == 0x1_0000_0000;
        assert((radix() - 1) * p + p == radix() * p) by (nonlinear_arith);
    }
}

/// The low `i + 1` limbs are the low `i` limbs and the limb at `i`.
proof fn lemma_mag_take(s: Seq<u32>, i: int)
    requires 0 <= i < s.len(),
    ensures mag(s.take(i + 1)) == mag(s.take(i)) + s[i] as int * rpow(i as nat),
{
    assert(s.take(i + 1).drop_last() =~= s.take(i));
    assert(s.take(i + 1).last() == s[i]);
}

/// The limbs split at `i` into a low part and a high part.
proof fn lemma_mag_split(s: Seq<u32>, i: int)
    requires 0 <= i <= s.len(),
    ensures mag(s) == mag(s.take(i)) + rpow(i as nat) * mag(s.skip(i)),
    decreases s.len(),
{
    if i == s.len() {
        assert(s.take(i) =~= s);
        assert(s.skip(i).len() == 0);
    } else {
        let t = s.drop_last();
        lemma_mag_split(t, i);
        assert(t.take(i) =~= s.take(i));
        assert(s.skip(i).drop_last() =~= t.skip(i));
        assert(s.skip(i).last() == s.last());
        let k = (s.len() - 1 - i) as nat;
        lemma_rpow_add(i as nat, k);
        assert(i as nat + k == (s.len() - 1) as nat);
        let d = s.last() as int;
        assert(rpow(i as nat) * (mag(t.skip(i)) + d * rpow(k)) == rpow(i as nat) * mag(t.skip(i))
            + d * (rpow(i as nat) * rpow(k))) by (nonlinear_arith);
    }
}

proof fn lemma_mag_one(s: Seq<u32>)
    requires s.len() == 1,
    ensures mag(s) == s[0] as int,
{
    let d = s[0] as int;
    let p = rpow(0);
    assert(s.drop_last() =~= Seq::empty());
    assert(mag(s.drop_last()) == 0);
    assert(d * p == d) by (nonlinear_arith) requires p == 1;
}

proof fn lemma_mag_two(s: Seq<u32>)
    requires s.len() == 2,
    ensures mag(s) == s[0] as int + s[1] as int * radix(),
{
    lemma_mag_one(s.drop_last());
    assert(rpow(1) == radix() * rpow(0));
}

/// The high part from `i` is the limb at `i` and the high part above it.
proof fn lemma_mag_high(s: Seq<u32>, i: int)
    requires 0 <= i < s.len(),
    ensures mag(s.skip(i)) == s[i] as int + radix() * mag(s.skip(i + 1)),
{
    let h = s.skip(i);
    lemma_mag_split(h, 1);
    lemma_mag_one(h.take(1));
    assert(rpow(1) == radix() * rpow(0));
    assert(h.skip(1) =~= s.skip(i + 1));
}

/// The limb at `i`, zero past the end.
pub open spec fn limb_or_zero(s: Seq<u32>, i: int) -> u32 {
    if 0 <= i < s.len() { s[i] } else { 0 }
}

/// The low `i` limbs, all of them once `i` passes the end.
pub open spec fn low(s: Seq<u32>, i: int) -> Seq<u32> {
    if i < s.len() { s.take(i) } else { s }
}

proof fn lemma_low_step(s: Seq<u32>, i: int)
    requires 0 <= i,
    ensures mag(low(s, i + 1)) == mag(low(s, i)) + limb_or_zero(s, i) as int * rpow(i as nat),
{
    if i < s.len() {
        lemma_mag_take(s, i);
        if i + 1 == s.len() {
            assert(s.take(i + 1) =~= s);
        }
    } else {
        assert(0 * rpow(i as nat) == 0);
    }
}

proof fn lemma_push(s: Seq<u32>, d: u32)
    ensures mag(s.push(d)) == mag(s) + d as int * rpow(s.len()),
{
    assert(s.push(d).drop_last() =~= s);
}

fn limb(a: &Vec<u32>, i: usize) -> (r: u32)
    ensures r == limb_or_zero(a@, i as int),
{
    if i < a.len() { a[i] } else { 0 }
}

fn longer(a: &Vec<u32>, b: &Vec<u32>) -> (r: usize)
    ensures r >= a.len(), r >= b.len(), r == a.len() || r == b.len(),
{
    if a.len() < b.len() { b.len() } else { a.len() }
}

/// `a + b`.
pub fn add_mag(a: &Vec<u32>, b: &Vec<u32>) -> (r: Vec<u32>)
    ensures mag(r@) == mag(a@) + mag(b@),
{
    let n = longer(a, b);
    let mut out: Vec<u32> = Vec::new();
    let mut carry: u64 = 0;
    let mut i: usize = 0;
    proof {
        assert(low(a@, 0) =~= Seq::empty() || a@.len() == 0);
        assert(low(b@, 0) =~= Seq::empty() || b@.len() == 0);
    }
    while i < n
        invariant
            i <= n,
            out.len() == i,
            carry <= 1,
            mag(out@) + carry as int * rpow(i as nat) == mag(low(a@, i as int)) + mag(low(b@, i as int)),
        decreases n - i,
    {
        let x = limb(a, i) as u64;
        let y = limb(b, i) as u64;
        let t: u64 = x + y + carry;
        let d: u64 = t % 0x1_0000_0000;
        let c: u64 = t / 0x1_0000_0000;
        let ghost before = out@;
        out.push(d as u32);
        proof {
            lemma_push(before, d as u32);
            lemma_low_step(a@, i as int);
            lemma_low_step(b@, i as int);
            let p = rpow(i as nat);
            assert(rpow((i + 1) as nat) == radix() * p);
            assert(d as int * p + c as int * (radix() * p) == x as int * p + y as int * p
                + carry as int * p) by (nonlinear_arith)
                requires x + y + carry == d + c * radix(), radix() == 0x1_0000_0000;
        }
        carry = c;
        i += 1;
    }
    proof {
        assert(low(a@, n as int) =~= a@);
        assert(low(b@, n as int) =~= b@);
        lemma_push(out@, carry as u32);
    }
    out.push(carry as u32);
    out
}

/// `a - b`, where `b` is not the larger.
pub fn sub_mag(a: &Vec<u32>, b: &Vec<u32>) -> (r: Vec<u32>)
    requires mag(a@) >= mag(b@),
    ensures mag(r@) == mag(a@) - mag(b@),
{
    let n = longer(a, b);
    let mut out: Vec<u32> = Vec::new();
    let mut borrow: u64 = 0;
    let mut i: usize = 0;
    proof {
        assert(low(a@, 0) =~= Seq::empty() || a@.len() == 0);
        assert(low(b@, 0) =~= Seq::empty() || b@.len() == 0);
    }
    while i < n
        invariant
            i <= n,
            out.len() == i,
            borrow <= 1,
            mag(out@) - borrow as int * rpow(i as nat) == mag(low(a@, i as int)) - mag(low(b@, i as int)),
        decreases n - i,
    {
        let x = limb(a, i) as u64;
        let y = limb(b, i) as u64;
        let need: u64 = y + borrow;
        let (d, c): (u64, u64) = if x >= need {
            (x - need, 0)
        } else {
            (x + 0x1_0000_0000 - need, 1)
        };
        let ghost before = out@;
        out.push(d as u32);
        proof {
            lemma_push(before, d as u32);
            lemma_low_step(a@, i as int);
            lemma_low_step(b@, i as int);
            let p = rpow(i as nat);
            assert(rpow((i + 1) as nat) == radix() * p);
            assert(d as int * p - c as int * (radix() * p) == x as int * p - y as int * p
                - borrow as int * p) by (nonlinear_arith)
                requires x - y - borrow == d - c * radix(), radix() == 0x1_0000_0000;
        }
        borrow = c;
        i += 1;
    }
    proof {
        assert(low(a@, n as int) =~= a@);
        assert(low(b@, n as int) =~= b@);
        lemma_mag_bound(out@);
        lemma_rpow_pos(n as nat);
        if borrow == 1 {
            assert(false) by {
                assert(1 * rpow(n as nat) == rpow(n as nat));
            }
        }
        assert(0 * rpow(n as nat) == 0);
    }
    out
}

/// `a * m + c`.
pub fn mul_small(a: &Vec<u32>, m: u32, c: u32) -> (r: Vec<u32>)
    ensures mag(r@) == mag(a@) * m as int + c as int,
{
    let mut out: Vec<u32> = Vec::new();
    let mut carry: u64 = c as u64;
    let mut i: usize = 0;
    proof {
        assert(a@.take(0) =~= Seq::empty());
        assert(mag(a@.take(0)) == 0);
        assert(rpow(0) == 1);
        assert(0 * (m as int) == 0);
    }
    while i < a.len()
        invariant
            i <= a.len(),
            out.len() == i,
            carry <= 0xffff_ffff,
            mag(out@) + carry as int * rpow(i as nat) == mag(a@.take(i as int)) * m as int + c as int,
        decreases a.len() - i,
    {
        let x = a[i] as u64;
        let y = m as u64;
        assert(x * y <= 0xffff_ffff * 0xffff_ffff) by (nonlinear_arith)
            requires x <= 0xffff_ffff, y <= 0xffff_ffff;
        let t: u64 = x * y + carry;
        let d: u64 = t % 0x1_0000_0000;
        let q: u64 = t / 0x1_0000_0000;
        let ghost before = out@;
        out.push(d as u32);
        proof {
            lemma_push(before, d as u32);
            lemma_mag_take(a@, i as int);
            let p = rpow(i as nat);
            let z = mag(a@.take(i as int));
            assert(rpow((i + 1) as nat) == radix() * p);
            assert(d as int * p + q as int * (radix() * p) == x as int * p * y as int
                + carry as int * p) by (nonlinear_arith)
                requires x * y + carry == d + q * radix(), radix() == 0x1_0000_0000;
            assert((z + x as int * p) * y as int == z * y as int + x as int * p * y as int)
                by (nonlinear_arith);
        }
        carry = q;
        i += 1;
    }
    proof {
        assert(a@.take(i as int) =~= a@);
        lemma_push(out@, carry as u32);
    }
    out.push(carry as u32);
    out
}

/// `a` with a zero limb slipped in below: `a` times the radix.
fn shift_limb(a: &Vec<u32>, low_limb: u32) -> (r: Vec<u32>)
    ensures mag(r@) == mag(a@) * radix() + low_limb as int, r@ == seq![low_limb] + a@,
{
    let mut out: Vec<u32> = Vec::new();
    out.push(low_limb);
    let mut i: usize = 0;
    while i < a.len()
        invariant
            i <= a.len(),
            out@ == seq![low_limb] + a@.take(i as int),
        decreases a.len() - i,
    {
        out.push(a[i]);
        i += 1;
        assert(out@ =~= seq![low_limb] + a@.take(i as int));
    }
    proof {
        assert(a@.take(i as int) =~= a@);
        lemma_mag_high(out@, 0);
        assert(out@.skip(0) =~= out@);
        assert(out@.skip(1) =~= a@);
    }
    out
}

/// `a * b`.
pub fn mul_mag(a: &Vec<u32>, b: &Vec<u32>) -> (r: Vec<u32>)
    ensures mag(r@) == mag(a@) * mag(b@),
{
    let mut out: Vec<u32> = Vec::new();
    let mut i: usize = b.len();
    proof {
        assert(b@.skip(b.len() as int) =~= Seq::empty());
        assert(mag(a@) * 0 == 0);
    }
    while i > 0
        invariant
            i <= b.len(),
            mag(out@) == mag(a@) * mag(b@.skip(i as int)),
        decreases i,
    {
        i -= 1;
        let ghost hi = mag(b@.skip(i + 1));
        let shifted = shift_limb(&out, 0);
        let part = mul_small(a, b[i], 0);
        let sum = add_mag(&shifted, &part);
        proof {
            lemma_mag_high(b@, i as int);
            assert(mag(a@) * (b@[i as int] as int + radix() * hi) == (mag(a@) * hi) * radix()
                + mag(a@) * b@[i as int] as int) by (nonlinear_arith);
        }
        out = sum;
    }
    assert(b@.skip(0) =~= b@);
    out
}

/// Whether `a < b`.
pub fn less_mag(a: &Vec<u32>, b: &Vec<u32>) -> (r: bool)
    ensures r == (mag(a@) < mag(b@)),
{
    let n = longer(a, b);
    let mut i: usize = n;
    proof {
        assert(low(a@, n as int) =~= a@);
        assert(low(b@, n as int) =~= b@);
    }
    while i > 0
        invariant
            i <= n,
            mag(a@) - mag(b@) == mag(low(a@, i as int)) - mag(low(b@, i as int)),
        decreases i,
    {
        i -= 1;
        let x = limb(a, i);
        let y = limb(b, i);
        proof {
            lemma_low_step(a@, i as int);
            lemma_low_step(b@, i as int);
            lemma_mag_bound(low(a@, i as int));
            lemma_mag_bound(low(b@, i as int));
            lemma_rpow_mono(low(a@, i as int).len(), i as nat);
            lemma_rpow_mono(low(b@, i as int).len(), i as nat);
        }
        if x != y {
            proof {
                let p = rpow(i as nat);
                if x < y {
                    assert(x as int * p + p <= y as int * p) by (nonlinear_arith)
                        requires x + 1 <= y, p > 0;
                } else {
                    assert(y as int * p + p <= x as int * p) by (nonlinear_arith)
                        requires y + 1 <= x, p > 0;
                }
            }
            return x < y;
        }
    }
    proof {
        assert(low(a@, 0).len() == 0);
        assert(low(b@, 0).len() == 0);
    }
    false
}

proof fn lemma_rpow_mono(a: nat, b: nat)
    requires a <= b,
    ensures 0 < rpow(a) <= rpow(b),
    decreases b,
{
    lemma_rpow_pos(a);
    if a < b {
        lemma_rpow_mono(a, (b - 1) as nat);
        let p = rpow((b - 1) as nat);
        assert(p <= radix() * p) by (nonlinear_arith)
            requires p > 0, radix() == 0x1_0000_0000;
    }
}

/// Whether the magnitude is zero.
pub fn is_zero_mag(a: &Vec<u32>) -> (r: bool)
    ensures r == (mag(a@) == 0),
{
    let z: Vec<u32> = Vec::new();
    proof { lemma_mag_bound(a@); }
    !less_mag(&z, a)
}

/// A copy of the limbs.
pub fn copy_limbs(a: &Vec<u32>) -> (r: Vec<u32>)
    ensures r@ == a@,
{
    let mut out: Vec<u32> = Vec::new();
    let mut i: usize = 0;
    while i < a.len()
        invariant i <= a.len(), out@ == a@.take(i as int),
        decreases a.len() - i,
    {
        out.push(a[i]);
        i += 1;
        assert(out@ =~= a@.take(i as int));
    }
    assert(a@.take(i as int) =~= a@);
    out
}

/// `a` without leading zero limbs.
fn trim(a: Vec<u32>) -> (r: Vec<u32>)
    ensures mag(r@) == mag(a@), r.len() > 0 ==> r[r.len() - 1] != 0,
{
    let mut out = a;
    let ghost want = mag(a@);
    while out.len() > 0 && out[out.len() - 1] == 0
        invariant mag(out@) == want,
        decreases out.len(),
    {
        proof {
            assert(0 * rpow((out.len() - 1) as nat) == 0);
        }
        out.pop();
    }
    out
}

/// Quotient and remainder of `a` by `d`.
pub fn divmod_mag(a: &Vec<u32>, d: &Vec<u32>) -> (r: (Vec<u32>, Vec<u32>))
    requires mag(d@) > 0,
    ensures
        mag(a@) == mag(r.0@) * mag(d@) + mag(r.1@),
        0 <= mag(r.1@) < mag(d@),
{
    let mut q: Vec<u32> = Vec::new();
    let mut rem: Vec<u32> = Vec::new();
    let mut i: usize = a.len();
    let ghost den = mag(d@);
    proof {
        assert(a@.skip(a.len() as int) =~= Seq::empty());
        assert(0 * den == 0);
    }
    while i > 0
        invariant
            i <= a.len(),
            den == mag(d@),
            den > 0,
            mag(a@.skip(i as int)) == mag(q@) * den + mag(rem@),
            0 <= mag(rem@) < den,
        decreases i,
    {
        i -= 1;
        let ghost hi = mag(a@.skip(i + 1));
        let x = a[i];
        let mut bit: u32 = 32;
        let mut scale: u64 = 0x1_0000_0000;
        let ghost mut done: int = 0;
        proof {
            lemma_mag_high(a@, i as int);
            lemma_radix_is_pow2();
            assert(radix() / 0x1_0000_0000 == 1);
            assert(hi * 1 == hi);
        }
        while bit > 0
            invariant
                bit <= 32,
                i < a.len(),
                x == a@[i as int],
                den == mag(d@),
                den > 0,
                scale == pow2_u64(bit as nat),
                1 <= scale <= 0x1_0000_0000,
                done == x as int / scale as int,
                radix() == 0x1_0000_0000,
                mag(q@) * den + mag(rem@) == hi * (radix() / scale as int) + done,
                radix() % scale as int == 0,
                0 <= mag(rem@) < den,
            decreases bit,
        {
            let half: u64 = scale / 2;
            let b: u32 = (((x as u64) / half) % 2) as u32;
            let r2 = mul_small(&rem, 2, b);
            let q2 = mul_small(&q, 2, 0);
            proof {
                lemma_halve(x as int, bit as nat);
                let k = radix() / scale as int;
                assert(pow2_u64(bit as nat) == 2 * pow2_u64((bit - 1) as nat));
                assert(half == pow2_u64((bit - 1) as nat));
                lemma_radix_div(bit as nat);
                assert(radix() / half as int == 2 * k);
                assert(radix() % half as int == 0);
                assert(hi * (2 * k) == 2 * (hi * k)) by (nonlinear_arith);
                assert((mag(q@) * 2) * den == 2 * (mag(q@) * den)) by (nonlinear_arith);
                assert(mag(q2@) * den + mag(r2@) == hi * (2 * k) + (2 * done + b as int));
            }
            if !less_mag(&r2, d) {
                let r3 = sub_mag(&r2, d);
                let q3 = add_one(&q2);
                proof {
                    assert((mag(q2@) + 1) * den == mag(q2@) * den + den) by (nonlinear_arith);
                }
                rem = r3;
                q = q3;
            } else {
                rem = r2;
                q = q2;
            }
            proof {
                done = 2 * done + b as int;
            }
            scale = half;
            bit -= 1;
        }
        proof {
            assert(scale == 1);
            assert(radix() / 1 == radix());
            assert(x as int / 1 == x as int);
            assert(hi * radix() == radix() * hi) by (nonlinear_arith);
        }
        q = trim(q);
        rem = trim(rem);
    }
    assert(a@.skip(0) =~= a@);
    (q, rem)
}

spec fn pow2_u64(n: nat) -> int
    decreases n,
{
    if n == 0 { 1 } else { 2 * pow2_u64((n - 1) as nat) }
}

proof fn lemma_pow2_u64(n: nat)
    ensures pow2_u64(n) > 0,
    decreases n,
{
    if n > 0 {
        lemma_pow2_u64((n - 1) as nat);
    }
}

proof fn lemma_pow2_u64_add(a: nat, b: nat)
    ensures pow2_u64(a + b) == pow2_u64(a) * pow2_u64(b),
    decreases a,
{
    if a > 0 {
        lemma_pow2_u64_add((a - 1) as nat, b);
        assert((a + b - 1) as nat == (a - 1) as nat + b);
        assert(2 * (pow2_u64((a - 1) as nat) * pow2_u64(b)) == (2 * pow2_u64((a - 1) as nat))
            * pow2_u64(b)) by (nonlinear_arith);
    }
}

proof fn lemma_radix_is_pow2()
    ensures pow2_u64(32) == 0x1_0000_0000,
{
    reveal_with_fuel(pow2_u64, 33);
}

/// Taking one more bit of `x` doubles what was taken and adds the bit.
proof fn lemma_halve(x: int, bit: nat)
    requires 0 <= x, 1 <= bit <= 32,
    ensures
        x / pow2_u64((bit - 1) as nat) == 2 * (x / pow2_u64(bit)) + (x / pow2_u64((bit - 1) as nat)) % 2,
{
    let h = pow2_u64((bit - 1) as nat);
    lemma_pow2_u64((bit - 1) as nat);
    assert(pow2_u64(bit) == 2 * h);
    vstd::arithmetic::div_mod::lemma_div_denominator(x, h, 2);
    assert(h * 2 == 2 * h);
    assert((x / h) / 2 == x / (2 * h));
}

proof fn lemma_radix_div(bit: nat)
    requires 1 <= bit <= 32,
    ensures
        radix() / pow2_u64((bit - 1) as nat) == 2 * (radix() / pow2_u64(bit)),
        radix() % pow2_u64((bit - 1) as nat) == 0,
{
    lemma_radix_is_pow2();
    lemma_pow2_u64_add((32 - bit) as nat, bit);
    lemma_pow2_u64(bit);
    lemma_pow2_u64((bit - 1) as nat);
    let k = pow2_u64((32 - bit) as nat);
    let h = pow2_u64((bit - 1) as nat);
    assert(pow2_u64(bit) == 2 * h);
    assert(radix() == k * (2 * h));
    assert(k * (2 * h) == (2 * k) * h) by (nonlinear_arith);
    vstd::arithmetic::div_mod::lemma_div_multiples_vanish(k, 2 * h);
    vstd::arithmetic::div_mod::lemma_div_multiples_vanish(2 * k, h);
    vstd::arithmetic::div_mod::lemma_mod_multiples_basic(2 * k, h);
    assert((2 * h) * k == k * (2 * h)) by (nonlinear_arith);
    assert(h * (2 * k) == (2 * k) * h) by (nonlinear_arith);
}

/// `a + 1`.
fn add_one(a: &Vec<u32>) -> (r: Vec<u32>)
    ensures mag(r@) == mag(a@) + 1,
{
    mul_small(a, 1, 1)
}

/// Division rounding toward negative infinity.
pub open spec fn floor_div(a: int, b: int) -> int {
    if b > 0 { a / b } else { (-a) / (-b) }
}

/// The remainder that goes with [`floor_div`]: it takes the divisor's sign.
pub open spec fn floor_mod(a: int, b: int) -> int {
    a - b * floor_div(a, b)
}

/// A quotient and a remainder of the right size and sign are the floored ones.
pub proof fn lemma_floor_unique(a: int, b: int, q: int, r: int)
    requires
        b != 0,
        a == b * q + r,
        b > 0 ==> 0 <= r < b,
        b < 0 ==> b < r <= 0,
    ensures
        floor_div(a, b) == q,
        floor_mod(a, b) == r,
{
    if b > 0 {
        assert(b * q == q * b) by (nonlinear_arith);
        vstd::arithmetic::div_mod::lemma_fundamental_div_mod_converse(a, b, q, r);
    } else {
        assert((-a) == (-b) * q + (-r)) by (nonlinear_arith)
            requires a == b * q + r;
        assert((-b) * q == q * (-b)) by (nonlinear_arith);
        vstd::arithmetic::div_mod::lemma_fundamental_div_mod_converse(-a, -b, q, -r);
    }
}

/// Two to the power `n`.
pub open spec fn two_pow(n: nat) -> int {
    pow(2, n)
}

/// The limb at position `i` of `x` in two's complement, sign-extended forever.
pub open spec fn limb_at(x: int, i: nat) -> int {
    (x / rpow(i)) % radix()
}

/// A bitwise operator on limbs.
#[derive(Clone, Copy, Debug, PartialEq, Eq, Structural)]
pub enum BitKind {
    And,
    Or,
    Xor,
}

/// What the operator does to one pair of limbs.
pub open spec fn limb_op(kind: BitKind, x: u32, y: u32) -> u32 {
    match kind {
        BitKind::And => x & y,
        BitKind::Or => x | y,
        BitKind::Xor => x ^ y,
    }
}

/// `r` is `kind` applied to `a` and `b`, limb by limb, in two's complement.
pub open spec fn is_bit_op(kind: BitKind, a: int, b: int, r: int) -> bool {
    forall|i: nat| #[trigger] limb_at(r, i) == limb_op(kind, limb_at(a, i) as u32, limb_at(b, i) as u32)
}

impl BigInt {
    /// `v` as a big integer.
    pub fn from_i64(v: i64) -> (r: BigInt)
        ensures r@ == v,
    {
        let m: u64 = if v < 0 { (-(v as i128)) as u64 } else { v as u64 };
        let mut limbs: Vec<u32> = Vec::new();
        limbs.push((m % 0x1_0000_0000) as u32);
        limbs.push((m / 0x1_0000_0000) as u32);
        proof {
            lemma_mag_two(limbs@);
        }
        BigInt { negative: v < 0, limbs }
    }

    /// A copy.
    pub fn copy(&self) -> (r: BigInt)
        ensures r@ == self@, r.negative == self.negative, r.limbs@ == self.limbs@,
    {
        BigInt { negative: self.negative, limbs: copy_limbs(&self.limbs) }
    }

    /// Whether the number is below zero.
    pub fn is_negative(&self) -> (r: bool)
        ensures r == (self@ < 0),
    {
        proof { lemma_mag_bound(self.limbs@); }
        self.negative && !is_zero_mag(&self.limbs)
    }

    /// The number as an `i64`, where it fits one.
    pub fn to_i64(&self) -> (r: Option<i64>)
        ensures
            match r {
                Some(v) => self@ == v,
                None => self@ < i64::MIN || self@ > i64::MAX,
            },
    {
        let t = trim(copy_limbs(&self.limbs));
        proof { lemma_mag_bound(t@); }
        if t.len() > 2 {
            proof {
                let n = (t.len() - 1) as nat;
                lemma_mag_bound(t@.drop_last());
                lemma_rpow_mono(2, n);
                assert(rpow(2) == radix() * rpow(1));
                assert(rpow(1) == radix() * rpow(0));
                assert(t@.last() as int * rpow(n) >= rpow(n)) by (nonlinear_arith)
                    requires t@.last() as int >= 1, rpow(n) > 0;
            }
            return None;
        }
        let lo: u32 = if t.len() > 0 { t[0] } else { 0 };
        let hi: u32 = if t.len() > 1 { t[1] } else { 0 };
        let m: u64 = hi as u64 * 0x1_0000_0000 + lo as u64;
        proof {
            if t.len() == 2 {
                lemma_mag_two(t@);
            } else if t.len() == 1 {
                lemma_mag_one(t@);
            }
            assert(mag(t@) == m);
        }
        if self.negative {
            if m <= 0x8000_0000_0000_0000 {
                Some((-(m as i128)) as i64)
            } else {
                None
            }
        } else if m <= 0x7fff_ffff_ffff_ffff {
            Some(m as i64)
        } else {
            None
        }
    }

    /// The negated number.
    pub fn neg(&self) -> (r: BigInt)
        ensures r@ == -self@,
    {
        BigInt { negative: !self.negative, limbs: copy_limbs(&self.limbs) }
    }

    /// `self + other`.
    pub fn add(&self, other: &BigInt) -> (r: BigInt)
        ensures r@ == self@ + other@,
    {
        if self.negative == other.negative {
            BigInt { negative: self.negative, limbs: add_mag(&self.limbs, &other.limbs) }
        } else if less_mag(&self.limbs, &other.limbs) {
            BigInt { negative: other.negative, limbs: sub_mag(&other.limbs, &self.limbs) }
        } else {
            BigInt { negative: self.negative, limbs: sub_mag(&self.limbs, &other.limbs) }
        }
    }

    /// `self - other`.
    pub fn sub(&self, other: &BigInt) -> (r: BigInt)
        ensures r@ == self@ - other@,
    {
        let n = other.neg();
        self.add(&n)
    }

    /// `self * other`.
    pub fn mul(&self, other: &BigInt) -> (r: BigInt)
        ensures r@ == self@ * other@,
    {
        let limbs = mul_mag(&self.limbs, &other.limbs);
        proof {
            let x = mag(self.limbs@);
            let y = mag(other.limbs@);
            assert((-x) * y == -(x * y)) by (nonlinear_arith);
            assert(x * (-y) == -(x * y)) by (nonlinear_arith);
            assert((-x) * (-y) == x * y) by (nonlinear_arith);
        }
        BigInt { negative: self.negative != other.negative, limbs: trim(limbs) }
    }

    /// Floored quotient and remainder, or `None` for a zero divisor.
    pub fn divmod_floor(&self, other: &BigInt) -> (r: Option<(BigInt, BigInt)>)
        ensures
            match r {
                None => other@ == 0,
                Some((q, m)) => other@ != 0 && q@ == floor_div(self@, other@)
                    && m@ == floor_mod(self@, other@),
            },
    {
        if is_zero_mag(&other.limbs) {
            return None;
        }
        proof { lemma_mag_bound(other.limbs@); lemma_mag_bound(self.limbs@); }
        let (q, m) = divmod_mag(&self.limbs, &other.limbs);
        let exact = is_zero_mag(&m);
        let ghost x = mag(self.limbs@);
        let ghost y = mag(other.limbs@);
        let ghost k = mag(q@);
        let ghost e = mag(m@);
        proof {
            assert(x == k * y + e);
            assert(k * y == y * k) by (nonlinear_arith);
        }
        if self.negative == other.negative {
            // The quotient is not negative and the remainder keeps the sign.
            proof {
                if self.negative {
                    assert((-y) * k == -(y * k)) by (nonlinear_arith);
                    lemma_floor_unique(self@, other@, k, -e);
                } else {
                    lemma_floor_unique(self@, other@, k, e);
                }
            }
            Some((BigInt { negative: false, limbs: q }, BigInt { negative: self.negative, limbs: m }))
        } else if exact {
            proof {
                assert((-y) * (-k) == y * k) by (nonlinear_arith);
                assert(y * (-k) == -(y * k)) by (nonlinear_arith);
                lemma_floor_unique(self@, other@, -k, 0);
            }
            Some((BigInt { negative: true, limbs: q }, BigInt { negative: false, limbs: m }))
        } else {
            let q1 = add_one(&q);
            let m1 = sub_mag(&other.limbs, &m);
            proof {
                assert(y * (-(k + 1)) == -(y * k) - y) by (nonlinear_arith);
                assert((-y) * (-(k + 1)) == y * k + y) by (nonlinear_arith);
                if self.negative {
                    lemma_floor_unique(self@, other@, -(k + 1), y - e);
                } else {
                    lemma_floor_unique(self@, other@, -(k + 1), -(y - e));
                }
            }
            Some((BigInt { negative: true, limbs: q1 },
                BigInt { negative: other.negative, limbs: m1 }))
        }
    }

    /// `self` to the power `e`.
    pub fn pow_u64(&self, e: u64) -> (r: BigInt)
        ensures r@ == pow(self@, e as nat),
    {
        let mut acc = BigInt::from_i64(1);
        let mut base = self.copy();
        let mut left: u64 = e;
        let ghost x = self@;
        proof {
            assert(1 * pow(x, e as nat) == pow(x, e as nat));
        }
        while left > 0
            invariant
                acc@ * pow(base@, left as nat) == pow(x, e as nat),
            decreases left,
        {
            let ghost b = base@;
            let ghost a = acc@;
            let half: u64 = left / 2;
            let sq = base.mul(&base);
            proof {
                lemma_pow_adds(b, half as nat, half as nat);
                lemma_pow_distributes(b, b, half as nat);
                assert(pow(b * b, half as nat) == pow(b, (half + half) as nat));
            }
            if left % 2 == 1 {
                acc = acc.mul(&base);
                proof {
                    assert(left == half + half + 1);
                    lemma_pow_adds(b, 1, (half + half) as nat);
                    lemma_pow1(b);
                    assert(a * (b * pow(b * b, half as nat)) == (a * b) * pow(b * b, half as nat))
                        by (nonlinear_arith);
                }
            }
            base = sq;
            left = half;
        }
        proof {
            lemma_pow0(base@);
            assert(acc@ * 1 == acc@);
        }
        acc
    }

    /// `-self - 1`: every bit complemented.
    pub fn not(&self) -> (r: BigInt)
        ensures r@ == -self@ - 1,
    {
        let one = BigInt::from_i64(1);
        self.neg().sub(&one)
    }

    /// `self < other`.
    pub fn less(&self, other: &BigInt) -> (r: bool)
        ensures r == (self@ < other@),
    {
        let d = self.sub(other);
        d.is_negative()
    }

    /// `self == other`.
    pub fn same(&self, other: &BigInt) -> (r: bool)
        ensures r == (self@ == other@),
    {
        let d = self.sub(other);
        proof { lemma_mag_bound(d.limbs@); }
        is_zero_mag(&d.limbs)
    }
}

proof fn lemma_pow2_is_pow(n: nat)
    ensures pow2_u64(n) == pow(2, n),
    decreases n,
{
    reveal(pow);
    if n > 0 {
        lemma_pow2_is_pow((n - 1) as nat);
    }
}

proof fn lemma_rpow_is_pow(n: nat)
    ensures rpow(n) == pow(2, 32 * n),
    decreases n,
{
    if n == 0 {
        lemma_pow0(2);
    } else {
        lemma_rpow_is_pow((n - 1) as nat);
        lemma_pow_adds(2, 32, (32 * (n - 1)) as nat);
        lemma_pow2_is_pow(32);
        lemma_radix_is_pow2();
        assert(32 + (32 * (n - 1)) as nat == 32 * n);
    }
}

/// Every limb is zero.
spec fn all_zero(s: Seq<u32>) -> bool {
    forall|i: int| 0 <= i < s.len() ==> s[i] == 0
}

proof fn lemma_mag_zero(s: Seq<u32>)
    requires all_zero(s),
    ensures mag(s) == 0,
    decreases s.len(),
{
    if s.len() > 0 {
        lemma_mag_zero(s.drop_last());
        assert(s.last() == 0);
        assert(0 * rpow((s.len() - 1) as nat) == 0);
    }
}

/// The limb at `i` of a magnitude is the limb that was written there.
proof fn lemma_limb_at(s: Seq<u32>, i: nat)
    ensures limb_at(mag(s), i) == limb_or_zero(s, i as int),
{
    lemma_mag_bound(s);
    lemma_rpow_pos(i);
    let p = rpow(i);
    if i < s.len() {
        lemma_mag_split(s, i as int);
        lemma_mag_bound(s.take(i as int));
        lemma_mag_high(s, i as int);
        let hi = mag(s.skip(i as int));
        assert(p * hi == hi * p) by (nonlinear_arith);
        vstd::arithmetic::div_mod::lemma_fundamental_div_mod_converse(mag(s), p, hi, mag(s.take(i as int)));
        let up = mag(s.skip(i as int + 1));
        assert(radix() * up == up * radix()) by (nonlinear_arith);
        vstd::arithmetic::div_mod::lemma_fundamental_div_mod_converse(hi, radix(), up, s[i as int] as int);
    } else {
        lemma_rpow_mono(s.len(), i);
        vstd::arithmetic::div_mod::lemma_fundamental_div_mod_converse(mag(s), p, 0, mag(s));
    }
}

/// Negative numbers in two's complement: `-(t + 1)` complements `t`.
proof fn lemma_limb_complement(t: int, i: nat)
    requires t >= 0,
    ensures limb_at(-t - 1, i) == radix() - 1 - limb_at(t, i),
{
    lemma_rpow_pos(i);
    let p = rpow(i);
    let q = t / p;
    let r = t % p;
    vstd::arithmetic::div_mod::lemma_fundamental_div_mod(t, p);
    vstd::arithmetic::div_mod::lemma_mod_bound(t, p);
    assert(-t - 1 == (-q - 1) * p + (p - 1 - r)) by (nonlinear_arith)
        requires t == p * q + r;
    vstd::arithmetic::div_mod::lemma_fundamental_div_mod_converse(-t - 1, p, -q - 1, p - 1 - r);
    let u = q / radix();
    let v = q % radix();
    assert(-q - 1 == (-u - 1) * radix() + (radix() - 1 - v)) by (nonlinear_arith)
        requires q == radix() * u + v;
    vstd::arithmetic::div_mod::lemma_fundamental_div_mod_converse(-q - 1, radix(), -u - 1, radix() - 1 - v);
}

proof fn lemma_complement_u32(x: u32)
    ensures !x == 0xffff_ffffu32 - x,
{
    assert(!x == 0xffff_ffffu32 - x) by (bit_vector);
}

/// `n` limbs of `x` in two's complement.
fn twos(x: &BigInt, n: usize) -> (r: Vec<u32>)
    requires n >= x.limbs.len(), x.negative ==> mag(x.limbs@) > 0,
    ensures
        r.len() == n,
        forall|i: int| 0 <= i < n ==> #[trigger] r[i] == limb_at(x@, i as nat),
        forall|i: nat| n <= i ==> #[trigger] limb_at(x@, i) == (if x.negative { radix() - 1 } else { 0 }),
{
    let one = {
        let mut o: Vec<u32> = Vec::new();
        o.push(1);
        o
    };
    proof { lemma_mag_one(one@); }
    let base = if x.negative { trim(sub_mag(&x.limbs, &one)) } else { copy_limbs(&x.limbs) };
    let ghost t = mag(base@);
    let mut out: Vec<u32> = Vec::new();
    let mut i: usize = 0;
    proof { lemma_mag_bound(base@); }
    while i < n
        invariant
            i <= n,
            out.len() == i,
            t == mag(base@),
            t >= 0,
            x@ == (if x.negative { -t - 1 } else { t }),
            forall|k: int| 0 <= k < i ==> #[trigger] out[k] == limb_at(x@, k as nat),
        decreases n - i,
    {
        let d = limb(&base, i);
        proof {
            lemma_limb_at(base@, i as nat);
            lemma_limb_complement(t, i as nat);
            lemma_complement_u32(d);
        }
        let e: u32 = if x.negative { !d } else { d };
        out.push(e);
        i += 1;
    }
    proof {
        assert forall|k: nat| n <= k implies #[trigger] limb_at(x@, k) == (if x.negative {
            radix() - 1
        } else {
            0
        }) by {
            lemma_limb_at(base@, k);
            lemma_limb_complement(t, k);
            if x.negative && base.len() > n {
                lemma_trimmed_len(base@, x.limbs@);
            }
        }
    }
    out
}

/// A trimmed magnitude that is not the larger has not more limbs.
proof fn lemma_trimmed_len(a: Seq<u32>, b: Seq<u32>)
    requires
        a.len() > 0 ==> a.last() != 0,
        mag(a) <= mag(b),
    ensures a.len() <= b.len(),
{
    if a.len() > b.len() {
        let n = (a.len() - 1) as nat;
        lemma_mag_bound(a.drop_last());
        lemma_mag_bound(b);
        lemma_rpow_mono(b.len(), n);
        assert(a.last() as int * rpow(n) >= rpow(n)) by (nonlinear_arith)
            requires a.last() as int >= 1, rpow(n) > 0;
    }
}

proof fn lemma_limb_op_signs(kind: BitKind, x: bool, y: bool)
    ensures
        limb_op(kind, if x { 0xffff_ffffu32 } else { 0u32 }, if y { 0xffff_ffffu32 } else { 0u32 })
            == (if bool_op(kind, x, y) { 0xffff_ffffu32 } else { 0u32 }),
{
    assert(0xffff_ffffu32 & 0xffff_ffffu32 == 0xffff_ffffu32) by (bit_vector);
    assert(0xffff_ffffu32 & 0u32 == 0u32) by (bit_vector);
    assert(0u32 & 0xffff_ffffu32 == 0u32) by (bit_vector);
    assert(0u32 & 0u32 == 0u32) by (bit_vector);
    assert(0xffff_ffffu32 | 0xffff_ffffu32 == 0xffff_ffffu32) by (bit_vector);
    assert(0xffff_ffffu32 | 0u32 == 0xffff_ffffu32) by (bit_vector);
    assert(0u32 | 0xffff_ffffu32 == 0xffff_ffffu32) by (bit_vector);
    assert(0u32 | 0u32 == 0u32) by (bit_vector);
    assert(0xffff_ffffu32 ^ 0xffff_ffffu32 == 0u32) by (bit_vector);
    assert(0xffff_ffffu32 ^ 0u32 == 0xffff_ffffu32) by (bit_vector);
    assert(0u32 ^ 0xffff_ffffu32 == 0xffff_ffffu32) by (bit_vector);
    assert(0u32 ^ 0u32 == 0u32) by (bit_vector);
}

/// What the operator does to two truth values.
pub open spec fn bool_op(kind: BitKind, x: bool, y: bool) -> bool {
    match kind {
        BitKind::And => x && y,
        BitKind::Or => x || y,
        BitKind::Xor => x != y,
    }
}

impl BitKind {
    /// The operator on two truth values.
    pub fn on_bools(self, x: bool, y: bool) -> (r: bool)
        ensures r == bool_op(self, x, y),
    {
        match self {
            BitKind::And => x && y,
            BitKind::Or => x || y,
            BitKind::Xor => x != y,
        }
    }

    fn on_limbs(self, x: u32, y: u32) -> (r: u32)
        ensures r == limb_op(self, x, y),
    {
        match self {
            BitKind::And => x & y,
            BitKind::Or => x | y,
            BitKind::Xor => x ^ y,
        }
    }
}

impl BigInt {
    /// The same number with a sign only where it is below zero.
    fn canonical(&self) -> (r: BigInt)
        ensures
            r@ == self@,
            r.negative ==> mag(r.limbs@) > 0,
    {
        proof { lemma_mag_bound(self.limbs@); }
        BigInt { negative: self.is_negative(), limbs: copy_limbs(&self.limbs) }
    }

    /// `self` and `other` combined bit by bit in two's complement.
    pub fn bitwise(&self, other: &BigInt, kind: BitKind) -> (r: BigInt)
        ensures is_bit_op(kind, self@, other@, r@),
    {
        let a = self.canonical();
        let b = other.canonical();
        let n = longer(&a.limbs, &b.limbs);
        let x = twos(&a, n);
        let y = twos(&b, n);
        let negative = kind.on_bools(a.negative, b.negative);
        // The limbs of the result, complemented when it is negative.
        let mut out: Vec<u32> = Vec::new();
        let mut i: usize = 0;
        while i < n
            invariant
                i <= n,
                n == x.len(),
                n == y.len(),
                out.len() == i,
                forall|k: int| 0 <= k < i ==> #[trigger] out[k] == (if negative {
                    !limb_op(kind, x[k], y[k])
                } else {
                    limb_op(kind, x[k], y[k])
                }),
            decreases n - i,
        {
            let d = kind.on_limbs(x[i], y[i]);
            let e: u32 = if negative { !d } else { d };
            out.push(e);
            i += 1;
        }
        let ghost t = mag(out@);
        proof { lemma_mag_bound(out@); }
        let limbs = if negative { add_one(&out) } else { out };
        let r = BigInt { negative, limbs };
        proof {
            assert(r@ == (if negative { -t - 1 } else { t }));
            assert forall|k: nat| #[trigger] limb_at(r@, k) == limb_op(kind, limb_at(self@, k) as u32,
                limb_at(other@, k) as u32) by {
                lemma_limb_at(out@, k);
                lemma_limb_complement(t, k);
                lemma_limb_op_signs(kind, a.negative, b.negative);
                if k < n {
                    let d = limb_op(kind, x[k as int], y[k as int]);
                    assert(x[k as int] == limb_at(a@, k));
                    assert(y[k as int] == limb_at(b@, k));
                    lemma_complement_u32(d);
                    lemma_complement_u32(!d);
                } else {
                    assert(limb_at(a@, k) == (if a.negative { radix() - 1 } else { 0 }));
                    assert(limb_at(b@, k) == (if b.negative { radix() - 1 } else { 0 }));
                }
            }
        }
        r
    }

    /// `self` times two to the power `count`.
    pub fn shl(&self, count: u64) -> (r: BigInt)
        ensures r@ == self@ * two_pow(count as nat),
    {
        if is_zero_mag(&self.limbs) {
            assert(0 * two_pow(count as nat) == 0);
            return BigInt::from_i64(0);
        }
        let zeros: u64 = count / 32;
        let bits: u64 = count % 32;
        let mut m: u32 = 1;
        let mut i: u64 = 0;
        proof {
            lemma_pow0(2);
        }
        while i < bits
            invariant
                i <= bits < 32,
                m == pow2_u64(i as nat),
            decreases bits - i,
        {
            proof {
                lemma_pow2_u64_add(i as nat, (31 - i) as nat);
                lemma_radix_is_pow2();
                lemma_pow2_u64((31 - i) as nat);
                assert(pow2_u64(32) == 2 * pow2_u64(31));
                assert(m as int * 1 <= m as int * pow2_u64((31 - i) as nat)) by (nonlinear_arith)
                    requires pow2_u64((31 - i) as nat) >= 1, m >= 0;
                assert(pow2_u64((i + 1) as nat) == 2 * pow2_u64(i as nat));
                if i < 31 {
                    lemma_pow2_u64_add((i + 1) as nat, (30 - i) as nat);
                    lemma_pow2_u64((30 - i) as nat);
                    let z = pow2_u64((i + 1) as nat);
                    assert(z * 1 <= z * pow2_u64((30 - i) as nat)) by (nonlinear_arith)
                        requires pow2_u64((30 - i) as nat) >= 1, z >= 0;
                }
            }
            m = m * 2;
            i += 1;
        }
        let top = mul_small(&self.limbs, m, 0);
        let mut limbs: Vec<u32> = Vec::new();
        let mut k: u64 = 0;
        while k < zeros
            invariant
                k <= zeros,
                limbs.len() == k,
                all_zero(limbs@),
            decreases zeros - k,
        {
            limbs.push(0);
            k += 1;
        }
        let ghost pad = limbs@;
        let mut j: usize = 0;
        while j < top.len()
            invariant
                j <= top.len(),
                limbs@ == pad + top@.take(j as int),
            decreases top.len() - j,
        {
            limbs.push(top[j]);
            j += 1;
            assert(limbs@ =~= pad + top@.take(j as int));
        }
        proof {
            assert(top@.take(j as int) =~= top@);
            lemma_mag_split(limbs@, zeros as int);
            assert(limbs@.take(zeros as int) =~= pad);
            assert(limbs@.skip(zeros as int) =~= top@);
            lemma_mag_zero(pad);
            lemma_pow2_is_pow(bits as nat);
            lemma_rpow_is_pow(zeros as nat);
            lemma_pow_adds(2, 32 * zeros as nat, bits as nat);
            assert(32 * zeros as nat + bits as nat == count as nat);
            let v = mag(self.limbs@);
            let p = rpow(zeros as nat);
            let q = m as int;
            assert(p * (v * q) == v * (p * q)) by (nonlinear_arith);
            assert(mag(limbs@) == v * two_pow(count as nat));
            assert((-v) * two_pow(count as nat) == -(v * two_pow(count as nat))) by (nonlinear_arith);
        }
        BigInt { negative: self.negative, limbs }
    }

    /// `self` divided by two to the power `count`, rounding down.
    pub fn shr(&self, count: u64) -> (r: BigInt)
        ensures r@ == floor_div(self@, two_pow(count as nat)),
    {
        proof {
            lemma_pow_positive(2, count as nat);
            lemma_mag_bound(self.limbs@);
        }
        if count / 32 >= self.limbs.len() as u64 {
            proof {
                let n = self.limbs@.len();
                lemma_rpow_is_pow(n);
                lemma_pow_increases(2, 32 * n, count as nat);
                let p = two_pow(count as nat);
                let m = mag(self.limbs@);
                assert(m < p);
                if self@ < 0 {
                    vstd::arithmetic::div_mod::lemma_fundamental_div_mod_converse(-m, p, -1, p - m);
                } else {
                    vstd::arithmetic::div_mod::lemma_fundamental_div_mod_converse(m, p, 0, m);
                }
            }
            return BigInt::from_i64(if self.is_negative() { -1 } else { 0 });
        }
        let d = BigInt::from_i64(1).shl(count);
        match self.divmod_floor(&d) {
            Some((q, _)) => q,
            None => BigInt::from_i64(0),
        }
    }

    /// The decimal text of the number.
    pub fn to_text(&self) -> (r: String)
        ensures r@ == int_text(self@),
    {
        proof { lemma_mag_bound(self.limbs@); }
        if self.is_negative() {
            proof { reveal_strlit("-"); }
            let d = decimal(copy_limbs(&self.limbs));
            let r = crate::text::join2("-", d.as_str());
            assert(r@ =~= int_text(self@));
            r
        } else {
            decimal(copy_limbs(&self.limbs))
        }
    }
}

/// The decimal digits of a magnitude.
fn decimal(a: Vec<u32>) -> (r: String)
    ensures r@ == nat_text(mag(a@) as nat),
    decreases mag(a@),
{
    proof { lemma_mag_bound(a@); }
    let ten = BigInt::from_i64(10);
    proof { lemma_mag_bound(ten.limbs@); }
    let (q, m) = divmod_mag(&a, &ten.limbs);
    let v = BigInt { negative: false, limbs: m };
    let digit: u64 = match v.to_i64() {
        Some(d) => d as u64,
        None => 0,
    };
    proof {
        lemma_mag_bound(q@);
        vstd::arithmetic::div_mod::lemma_fundamental_div_mod_converse(mag(a@), 10, mag(q@), digit as int);
    }
    let d = render_u64(digit);
    if is_zero_mag(&q) {
        d
    } else {
        let s = decimal(q);
        let r = crate::text::join2(s.as_str(), d.as_str());
        assert(r@ =~= nat_text(mag(a@) as nat));
        r
    }
}

} // verus!
