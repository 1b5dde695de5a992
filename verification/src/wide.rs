//! A 384-bit scratch integer used for intermediate products, together with
//! full multiplication of two [`U192`] values and exact division with
//! remainder.
//!
//! The double width lets a product of two 192-bit values be kept without
//! loss, so that a rescaling division afterwards fails only when the final
//! result is itself out of range.

use vstd::prelude::*;

use crate::u192::p128;
use crate::u192::p192;
use crate::u192::p64;
use crate::u192::U192;
use crate::u192::WORD_BASE;

verus! {

/// `2^256`.
#[verifier::inline]
pub open spec fn p256() -> nat {
    0x1_0000_0000_0000_0000_0000_0000_0000_0000_0000_0000_0000_0000_0000_0000_0000_0000nat
}

/// `2^320`.
#[verifier::inline]
pub open spec fn p320() -> nat {
    0x1_0000_0000_0000_0000_0000_0000_0000_0000_0000_0000_0000_0000_0000_0000_0000_0000_0000_0000_0000_0000nat
}

/// `2^384`, one past the largest representable [`U384`] value.
#[verifier::inline]
pub open spec fn p384() -> nat {
    0x1_0000_0000_0000_0000_0000_0000_0000_0000_0000_0000_0000_0000_0000_0000_0000_0000_0000_0000_0000_0000_0000_0000_0000_0000nat
}

/// A 384-bit unsigned integer: value `sum of w_k * 2^(64*k)`.
#[derive(Clone, Copy, Debug, PartialEq, Eq, Structural)]
pub struct U384 {
    pub w0: u64,
    pub w1: u64,
    pub w2: u64,
    pub w3: u64,
    pub w4: u64,
    pub w5: u64,
}

impl View for U384 {
    type V = nat;

    open spec fn view(&self) -> nat {
        self.w0 as nat + (self.w1 as nat) * p64() + (self.w2 as nat) * p128() + (self.w3 as nat)
            * p192() + (self.w4 as nat) * p256() + (self.w5 as nat) * p320()
    }
}

/// Every `U384` value lies below `2^384`.
pub proof fn lemma_u384_bound(x: U384)
    ensures
        x@ < p384(),
{
    assert((x.w1 as nat) * p64() <= (p64() - 1) * p64());
    assert((x.w2 as nat) * p128() <= (p64() - 1) * p128());
    assert((x.w3 as nat) * p192() <= (p64() - 1) * p192());
    assert((x.w4 as nat) * p256() <= (p64() - 1) * p256());
    assert((x.w5 as nat) * p320() <= (p64() - 1) * p320());
}

/// One row of schoolbook multiplication: the four words of `a * b` for a
/// single 64-bit multiplier `b`.
fn mul_word(a: U192, b: u64) -> (p: (u64, u64, u64, u64))
    ensures
        (p.0 as nat) + (p.1 as nat) * p64() + (p.2 as nat) * p128() + (p.3 as nat) * p192() == a@
            * (b as nat),
{
    proof {
        lemma_word_product_fits(a.lo as nat, b as nat);
        lemma_word_product_fits(a.mid as nat, b as nat);
        lemma_word_product_fits(a.hi as nat, b as nat);
    }
    let t0: u128 = (a.lo as u128) * (b as u128);
    let p0: u64 = (t0 % WORD_BASE) as u64;
    let c0: u64 = (t0 / WORD_BASE) as u64;
    let t1: u128 = (a.mid as u128) * (b as u128) + c0 as u128;
    let p1: u64 = (t1 % WORD_BASE) as u64;
    let c1: u64 = (t1 / WORD_BASE) as u64;
    let t2: u128 = (a.hi as u128) * (b as u128) + c1 as u128;
    let p2: u64 = (t2 % WORD_BASE) as u64;
    let p3: u64 = (t2 / WORD_BASE) as u64;
    proof {
        assert(t0 == (c0 as nat) * p64() + p0);
        assert(t1 == (c1 as nat) * p64() + p1);
        assert(t2 == (p3 as nat) * p64() + p2);
        assert(a@ * (b as nat) == (a.lo as nat) * (b as nat) + ((a.mid as nat) * (b as nat))
            * p64() + ((a.hi as nat) * (b as nat)) * p128()) by (nonlinear_arith)
            requires
                a@ == (a.lo as nat) + (a.mid as nat) * p64() + (a.hi as nat) * p128(),
        ;
    }
    (p0, p1, p2, p3)
}

/// A product of two 64-bit words fits in 128 bits.
proof fn lemma_word_product_fits(a: nat, b: nat)
    requires
        a < p64(),
        b < p64(),
    ensures
        a * b <= (p64() - 1) * (p64() - 1),
{
    assert(a * b <= (p64() - 1) * (p64() - 1)) by (nonlinear_arith)
        requires
            a < p64(),
            b < p64(),
    ;
}

impl U384 {
    /// The zero value.
    pub fn zero() -> (r: U384)
        ensures
            r@ == 0,
    {
        U384 { w0: 0, w1: 0, w2: 0, w3: 0, w4: 0, w5: 0 }
    }

    /// Widening from a `U192` (upper words zero).
    pub fn from_u192(x: U192) -> (r: U384)
        ensures
            r@ == x@,
    {
        U384 { w0: x.lo, w1: x.mid, w2: x.hi, w3: 0, w4: 0, w5: 0 }
    }

    /// Narrowing to a `U192`; reports the value when it fits in 192 bits.
    pub fn try_to_u192(self) -> (r: Option<U192>)
        ensures
            r is Some <==> self@ < p192(),
            r is Some ==> r->Some_0@ == self@,
    {
        if self.w3 == 0 && self.w4 == 0 && self.w5 == 0 {
            Some(U192 { hi: self.w2, mid: self.w1, lo: self.w0 })
        } else {
            assert(self@ >= p192());
            None
        }
    }

    /// Exact addition under the precondition that the sum stays in range.
    fn add_exact(self, other: U384) -> (r: U384)
        requires
            self@ + other@ < p384(),
        ensures
            r@ == self@ + other@,
    {
        let t0: u128 = self.w0 as u128 + other.w0 as u128;
        let w0: u64 = (t0 % WORD_BASE) as u64;
        let c0: u64 = (t0 / WORD_BASE) as u64;
        let t1: u128 = self.w1 as u128 + other.w1 as u128 + c0 as u128;
        let w1: u64 = (t1 % WORD_BASE) as u64;
        let c1: u64 = (t1 / WORD_BASE) as u64;
        let t2: u128 = self.w2 as u128 + other.w2 as u128 + c1 as u128;
        let w2: u64 = (t2 % WORD_BASE) as u64;
        let c2: u64 = (t2 / WORD_BASE) as u64;
        let t3: u128 = self.w3 as u128 + other.w3 as u128 + c2 as u128;
        let w3: u64 = (t3 % WORD_BASE) as u64;
        let c3: u64 = (t3 / WORD_BASE) as u64;
        let t4: u128 = self.w4 as u128 + other.w4 as u128 + c3 as u128;
        let w4: u64 = (t4 % WORD_BASE) as u64;
        let c4: u64 = (t4 / WORD_BASE) as u64;
        let t5: u128 = self.w5 as u128 + other.w5 as u128 + c4 as u128;
        let w5: u64 = (t5 % WORD_BASE) as u64;
        let c5: u64 = (t5 / WORD_BASE) as u64;
        let out = U384 { w0, w1, w2, w3, w4, w5 };
        proof {
            assert(t0 == (c0 as nat) * p64() + w0);
            assert(t1 == (c1 as nat) * p64() + w1);
            assert(t2 == (c2 as nat) * p64() + w2);
            assert(t3 == (c3 as nat) * p64() + w3);
            assert(t4 == (c4 as nat) * p64() + w4);
            assert(t5 == (c5 as nat) * p64() + w5);
            assert(out@ + (c5 as nat) * p384() == self@ + other@);
            lemma_u384_bound(out);
            assert(c5 == 0);
        }
        out
    }

    /// Full multiplication of two 192-bit values; the 384-bit result is
    /// always exact.
    pub fn mul_u192(a: U192, b: U192) -> (r: U384)
        ensures
            r@ == a@ * b@,
    {
        let (p0, p1, p2, p3) = mul_word(a, b.lo);
        let row0 = U384 { w0: p0, w1: p1, w2: p2, w3: p3, w4: 0, w5: 0 };
        let (q0, q1, q2, q3) = mul_word(a, b.mid);
        let row1 = U384 { w0: 0, w1: q0, w2: q1, w3: q2, w4: q3, w5: 0 };
        let (s0, s1, s2, s3) = mul_word(a, b.hi);
        let row2 = U384 { w0: 0, w1: 0, w2: s0, w3: s1, w4: s2, w5: s3 };
        proof {
            assert(row0@ == a@ * (b.lo as nat));
            assert(row1@ == (a@ * (b.mid as nat)) * p64());
            assert(row2@ == (a@ * (b.hi as nat)) * p128());
            crate::u192::lemma_u192_bound(a);
            lemma_row_sum_bound(a@, b.lo as nat, b.mid as nat, b.hi as nat);
            assert(a@ * (b.lo as nat) + (a@ * (b.mid as nat)) * p64() + (a@ * (b.hi as nat))
                * p128() == a@ * b@) by (nonlinear_arith)
                requires
                    b@ == (b.lo as nat) + (b.mid as nat) * p64() + (b.hi as nat) * p128(),
            ;
        }
        let sum01 = row0.add_exact(row1);
        let r = sum01.add_exact(row2);
        r
    }
}

impl U384 {
    /// Double the value, returning the low 384 bits and the shifted-out
    /// top bit.
    fn shl1_out(self) -> (r: (U384, u64))
        ensures
            r.1 <= 1,
            2 * self@ == (r.1 as nat) * p384() + r.0@,
    {
        let t0: u128 = 2 * (self.w0 as u128);
        let w0: u64 = (t0 % WORD_BASE) as u64;
        let c0: u64 = (t0 / WORD_BASE) as u64;
        let t1: u128 = 2 * (self.w1 as u128) + c0 as u128;
        let w1: u64 = (t1 % WORD_BASE) as u64;
        let c1: u64 = (t1 / WORD_BASE) as u64;
        let t2: u128 = 2 * (self.w2 as u128) + c1 as u128;
        let w2: u64 = (t2 % WORD_BASE) as u64;
        let c2: u64 = (t2 / WORD_BASE) as u64;
        let t3: u128 = 2 * (self.w3 as u128) + c2 as u128;
        let w3: u64 = (t3 % WORD_BASE) as u64;
        let c3: u64 = (t3 / WORD_BASE) as u64;
        let t4: u128 = 2 * (self.w4 as u128) + c3 as u128;
        let w4: u64 = (t4 % WORD_BASE) as u64;
        let c4: u64 = (t4 / WORD_BASE) as u64;
        let t5: u128 = 2 * (self.w5 as u128) + c4 as u128;
        let w5: u64 = (t5 % WORD_BASE) as u64;
        let c5: u64 = (t5 / WORD_BASE) as u64;
        let out = U384 { w0, w1, w2, w3, w4, w5 };
        proof {
            assert(t0 == (c0 as nat) * p64() + w0);
            assert(t1 == (c1 as nat) * p64() + w1);
            assert(t2 == (c2 as nat) * p64() + w2);
            assert(t3 == (c3 as nat) * p64() + w3);
            assert(t4 == (c4 as nat) * p64() + w4);
            assert(t5 == (c5 as nat) * p64() + w5);
            assert(out@ + (c5 as nat) * p384() == 2 * self@);
        }
        (out, c5)
    }

    /// Double the value and bring in a new lowest bit, under the
    /// precondition that the result stays in range.
    fn shl1_in(self, bit: u64) -> (r: U384)
        requires
            bit <= 1,
            2 * self@ + bit < p384(),
        ensures
            r@ == 2 * self@ + bit,
    {
        let t0: u128 = 2 * (self.w0 as u128) + bit as u128;
        let w0: u64 = (t0 % WORD_BASE) as u64;
        let c0: u64 = (t0 / WORD_BASE) as u64;
        let t1: u128 = 2 * (self.w1 as u128) + c0 as u128;
        let w1: u64 = (t1 % WORD_BASE) as u64;
        let c1: u64 = (t1 / WORD_BASE) as u64;
        let t2: u128 = 2 * (self.w2 as u128) + c1 as u128;
        let w2: u64 = (t2 % WORD_BASE) as u64;
        let c2: u64 = (t2 / WORD_BASE) as u64;
        let t3: u128 = 2 * (self.w3 as u128) + c2 as u128;
        let w3: u64 = (t3 % WORD_BASE) as u64;
        let c3: u64 = (t3 / WORD_BASE) as u64;
        let t4: u128 = 2 * (self.w4 as u128) + c3 as u128;
        let w4: u64 = (t4 % WORD_BASE) as u64;
        let c4: u64 = (t4 / WORD_BASE) as u64;
        let t5: u128 = 2 * (self.w5 as u128) + c4 as u128;
        let w5: u64 = (t5 % WORD_BASE) as u64;
        let c5: u64 = (t5 / WORD_BASE) as u64;
        let out = U384 { w0, w1, w2, w3, w4, w5 };
        proof {
            assert(t0 == (c0 as nat) * p64() + w0);
            assert(t1 == (c1 as nat) * p64() + w1);
            assert(t2 == (c2 as nat) * p64() + w2);
            assert(t3 == (c3 as nat) * p64() + w3);
            assert(t4 == (c4 as nat) * p64() + w4);
            assert(t5 == (c5 as nat) * p64() + w5);
            assert(out@ + (c5 as nat) * p384() == 2 * self@ + bit);
            lemma_u384_bound(out);
            assert(c5 == 0);
        }
        out
    }
}

/// One step of binary long division: double the partial remainder, bring in
/// the next dividend bit, and subtract the divisor once if it fits.
#[verifier::rlimit(60)]
fn div_step(rem: U192, d: U192, bit: u64) -> (res: (U192, u64))
    requires
        rem@ < d@,
        bit <= 1,
    ensures
        res.1 <= 1,
        2 * rem@ + bit == (res.1 as nat) * d@ + res.0@,
        res.0@ < d@,
{
    let t0: u128 = 2 * (rem.lo as u128) + bit as u128;
    let u0: u64 = (t0 % WORD_BASE) as u64;
    let c0: u64 = (t0 / WORD_BASE) as u64;
    let t1: u128 = 2 * (rem.mid as u128) + c0 as u128;
    let u1: u64 = (t1 % WORD_BASE) as u64;
    let c1: u64 = (t1 / WORD_BASE) as u64;
    let t2: u128 = 2 * (rem.hi as u128) + c1 as u128;
    let u2: u64 = (t2 % WORD_BASE) as u64;
    let u3: u64 = (t2 / WORD_BASE) as u64;
    let ghost tv: nat = (u0 as nat) + (u1 as nat) * p64() + (u2 as nat) * p128() + (u3 as nat)
        * p192();
    proof {
        assert(t0 == (c0 as nat) * p64() + u0);
        assert(t1 == (c1 as nat) * p64() + u1);
        assert(t2 == (u3 as nat) * p64() + u2);
        assert(tv == 2 * rem@ + bit);
        crate::u192::lemma_u192_bound(d);
        crate::u192::lemma_u192_bound(rem);
    }
    let ge: bool = if u3 > 0 {
        true
    } else if u2 != d.hi {
        u2 > d.hi
    } else if u1 != d.mid {
        u1 > d.mid
    } else {
        u0 >= d.lo
    };
    proof {
        assert(ge <==> tv >= d@);
    }
    if ge {
        let s0: u128 = WORD_BASE + u0 as u128 - d.lo as u128;
        let v0: u64 = (s0 % WORD_BASE) as u64;
        let b0: u64 = 1 - (s0 / WORD_BASE) as u64;
        let s1: u128 = WORD_BASE + u1 as u128 - d.mid as u128 - b0 as u128;
        let v1: u64 = (s1 % WORD_BASE) as u64;
        let b1: u64 = 1 - (s1 / WORD_BASE) as u64;
        let s2: u128 = WORD_BASE + u2 as u128 - d.hi as u128 - b1 as u128;
        let v2: u64 = (s2 % WORD_BASE) as u64;
        let b2: u64 = 1 - (s2 / WORD_BASE) as u64;
        let s3: u128 = u3 as u128 + 1 - b2 as u128;
        let out = U192 { hi: v2, mid: v1, lo: v0 };
        proof {
            assert(s0 == ((s0 / WORD_BASE) as nat) * p64() + v0);
            assert(s1 == ((s1 / WORD_BASE) as nat) * p64() + v1);
            assert(s2 == ((s2 / WORD_BASE) as nat) * p64() + v2);
            // s3 encodes the final borrow: it is 0 or 1 plus the top word.
            assert(u3 as int + 1 - b2 <= 2);
            assert(out@ + (s3 as nat) * p192() == tv - d@ + p192());
            // tv - d@ < d@ < 2^192, so the subtraction cannot run out of words.
            assert(tv - d@ < d@);
            assert(s3 == 1);
            assert(out@ == tv - d@);
        }
        (out, 1)
    } else {
        proof {
            assert(tv < d@);
            assert(u3 == 0);
        }
        (U192 { hi: u2, mid: u1, lo: u0 }, 0)
    }
}

/// Division with remainder of a 384-bit dividend by a non-zero 192-bit
/// divisor, by binary long division over all 384 dividend bits.
pub fn div_rem(n: U384, d: U192) -> (res: (U384, U192))
    requires
        d@ > 0,
    ensures
        res.0@ == n@ / d@,
        res.1@ == n@ % d@,
{
    let mut cur = n;
    let mut quot = U384::zero();
    let mut rem = U192::zero();
    let ghost mut seen: nat = 0;
    let ghost mut mult: nat = 1;
    let ghost mut scaled: nat = n@;
    let mut k: usize = 0;
    proof {
        lemma_u384_bound(n);
        assert(n@ * 1 == n@) by (nonlinear_arith);
    }
    while k < 384
        invariant
            k <= 384,
            d@ > 0,
            mult == two_pow(k as nat),
            scaled == n@ * mult,
            scaled == seen * p384() + cur@,
            seen < mult,
            seen == quot@ * d@ + rem@,
            rem@ < d@,
        decreases 384 - k,
    {
        let (cur2, bit) = cur.shl1_out();
        let (rem2, qbit) = div_step(rem, d, bit);
        let ghost seen2: nat = (2 * seen + bit) as nat;
        let ghost q2v: nat = (2 * quot@ + qbit) as nat;
        proof {
            assert(two_pow((k + 1) as nat) == 2 * two_pow(k as nat));
            assert(n@ * (2 * mult) == 2 * (n@ * mult)) by (nonlinear_arith);
            assert(q2v * d@ == 2 * (quot@ * d@) + (qbit as nat) * d@) by (nonlinear_arith)
                requires
                    q2v == 2 * quot@ + qbit,
            ;
            assert(seen2 == q2v * d@ + rem2@);
            assert(q2v <= q2v * d@) by (nonlinear_arith)
                requires
                    d@ >= 1,
                    q2v >= 0,
            ;
            lemma_two_pow_384_value();
            lemma_two_pow_increases((k + 1) as nat, 384);
            assert(q2v < p384());
        }
        let quot2 = quot.shl1_in(qbit);
        cur = cur2;
        rem = rem2;
        quot = quot2;
        proof {
            seen = seen2;
            mult = 2 * mult;
            scaled = 2 * scaled;
        }
        k = k + 1;
    }
    proof {
        lemma_two_pow_384_value();
        lemma_u384_bound(cur);
        assert(n@ * mult == n@ * p384()) by (nonlinear_arith)
            requires
                mult == p384(),
        ;
        assert(n@ == seen);
        vstd::arithmetic::div_mod::lemma_fundamental_div_mod_converse(
            n@ as int,
            d@ as int,
            quot@ as int,
            rem@ as int,
        );
    }
    (quot, rem)
}

impl U192 {
    /// Checked multiplication within 192 bits: the exact product, or `None`
    /// when it exceeds `2^192 - 1`.
    pub fn checked_mul(self, other: U192) -> (r: Option<U192>)
        ensures
            r is Some <==> self@ * other@ < p192(),
            r is Some ==> r->Some_0@ == self@ * other@,
    {
        let wideprod = U384::mul_u192(self, other);
        wideprod.try_to_u192()
    }

    /// Multiplication by a 64-bit word under the precondition that the
    /// product stays in range; used where the bound is known statically.
    pub fn mul_word_exact(self, m: u64) -> (r: U192)
        requires
            self@ * m < p192(),
        ensures
            r@ == self@ * m,
    {
        let (p0, p1, p2, p3) = mul_word(self, m);
        proof {
            assert((p3 as nat) * p192() <= self@ * (m as nat));
            assert(p3 == 0);
        }
        U192 { hi: p2, mid: p1, lo: p0 }
    }
}

/// `2^k`, the number of dividend bit patterns a `k`-step division prefix
/// can take.
spec fn two_pow(k: nat) -> nat
    decreases k,
{
    if k == 0 {
        1nat
    } else {
        2 * two_pow((k - 1) as nat)
    }
}

/// `two_pow` is monotone.
proof fn lemma_two_pow_increases(a: nat, b: nat)
    requires
        a <= b,
    ensures
        two_pow(a) <= two_pow(b),
    decreases b - a,
{
    if a < b {
        lemma_two_pow_increases(a, (b - 1) as nat);
        assert(two_pow(b) == 2 * two_pow((b - 1) as nat));
        assert(two_pow((b - 1) as nat) >= 1) by {
            lemma_two_pow_pos((b - 1) as nat);
        }
    }
}

/// `two_pow` is positive.
proof fn lemma_two_pow_pos(k: nat)
    ensures
        two_pow(k) >= 1,
    decreases k,
{
    if k > 0 {
        lemma_two_pow_pos((k - 1) as nat);
    }
}

/// `10^n`.
pub open spec fn pow10(n: nat) -> nat
    decreases n,
{
    if n == 0 {
        1nat
    } else {
        10 * pow10((n - 1) as nat)
    }
}

/// `pow10` is monotone.
proof fn lemma_pow10_increases(a: nat, b: nat)
    requires
        a <= b,
    ensures
        pow10(a) <= pow10(b),
    decreases b - a,
{
    if a < b {
        lemma_pow10_increases(a, (b - 1) as nat);
        lemma_pow10_pos((b - 1) as nat);
        assert(pow10(b) == 10 * pow10((b - 1) as nat));
    }
}

/// `pow10` is positive.
proof fn lemma_pow10_pos(k: nat)
    ensures
        pow10(k) >= 1,
    decreases k,
{
    if k > 0 {
        lemma_pow10_pos((k - 1) as nat);
    }
}

/// `10^57` is the largest power of ten below `2^192`.
proof fn lemma_pow10_57_bound()
    ensures
        pow10(57) < p192(),
{
    assert(pow10(57) < p192()) by {
        reveal_with_fuel(pow10, 58);
    }
}

impl U192 {
    /// `10^n`, for exponents whose power still fits in 192 bits.
    pub fn exp10(n: usize) -> (r: U192)
        requires
            n <= 57,
        ensures
            r@ == pow10(n as nat),
    {
        let mut acc = U192::from_u64(1);
        let mut i: usize = 0;
        while i < n
            invariant
                i <= n,
                n <= 57,
                acc@ == pow10(i as nat),
            decreases n - i,
        {
            proof {
                lemma_pow10_increases((i + 1) as nat, 57);
                lemma_pow10_57_bound();
                assert(pow10((i + 1) as nat) == 10 * pow10(i as nat));
            }
            acc = acc.mul_word_exact(10);
            i = i + 1;
        }
        acc
    }
}

/// Powers of two add exponents when multiplied.
proof fn lemma_two_pow_adds(a: nat, b: nat)
    ensures
        two_pow(a + b) == two_pow(a) * two_pow(b),
    decreases a,
{
    if a == 0 {
        assert(1 * two_pow(b) == two_pow(b)) by (nonlinear_arith);
    } else {
        lemma_two_pow_adds((a - 1) as nat, b);
        assert(two_pow(a + b) == 2 * two_pow((a + b - 1) as nat));
        assert((2 * two_pow((a - 1) as nat)) * two_pow(b) == 2 * (two_pow((a - 1) as nat)
            * two_pow(b))) by (nonlinear_arith);
    }
}

/// `2^384` written out as a literal.
proof fn lemma_two_pow_384_value()
    ensures
        two_pow(384) == p384(),
{
    assert(two_pow(64) == p64()) by {
        reveal_with_fuel(two_pow, 65);
    }
    lemma_two_pow_adds(64, 64);
    assert(two_pow(128) == p128()) by (nonlinear_arith)
        requires
            two_pow(128) == two_pow(64) * two_pow(64),
            two_pow(64) == p64(),
    ;
    lemma_two_pow_adds(128, 128);
    assert(two_pow(256) == p256()) by (nonlinear_arith)
        requires
            two_pow(256) == two_pow(128) * two_pow(128),
            two_pow(128) == p128(),
    ;
    lemma_two_pow_adds(256, 128);
    assert(two_pow(384) == p384()) by (nonlinear_arith)
        requires
            two_pow(384) == two_pow(256) * two_pow(128),
            two_pow(256) == p256(),
            two_pow(128) == p128(),
    ;
}

/// Bounds for the partial sums of the schoolbook product of a 192-bit value
/// with the three words of another: every partial sum stays below `2^384`.
proof fn lemma_row_sum_bound(a: nat, blo: nat, bmid: nat, bhi: nat)
    requires
        a < p192(),
        blo < p64(),
        bmid < p64(),
        bhi < p64(),
    ensures
        a * blo + (a * bmid) * p64() < p384(),
        a * blo + (a * bmid) * p64() + (a * bhi) * p128() < p384(),
{
    assert(a * blo + (a * bmid) * p64() == a * (blo + bmid * p64())) by (nonlinear_arith);
    assert(a * blo + (a * bmid) * p64() + (a * bhi) * p128() == a * (blo + bmid * p64() + bhi
        * p128())) by (nonlinear_arith);
    assert(blo + bmid * p64() <= p128() - 1);
    assert(blo + bmid * p64() + bhi * p128() <= p192() - 1);
    assert(a * (blo + bmid * p64()) < p384()) by (nonlinear_arith)
        requires
            blo + bmid * p64() <= p128() - 1,
            a < p192(),
    ;
    assert(a * (blo + bmid * p64() + bhi * p128()) < p384()) by (nonlinear_arith)
        requires
            blo + bmid * p64() + bhi * p128() <= p192() - 1,
            a < p192(),
    ;
}

} // verus!
