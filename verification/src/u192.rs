//! A fixed-width 192-bit unsigned integer built from three 64-bit words,
//! with checked arithmetic throughout.
//!
//! The mathematical value of a [`U192`] is `lo + mid*2^64 + hi*2^128`; the
//! fields are declared most significant first so that the derived ordering
//! agrees with the numeric ordering.

use vstd::prelude::*;

verus! {

/// `2^64`, the weight of one 64-bit word.
#[verifier::inline]
pub open spec fn p64() -> nat {
    0x1_0000_0000_0000_0000nat
}

/// `2^128`, the weight of the highest 64-bit word.
#[verifier::inline]
pub open spec fn p128() -> nat {
    0x1_0000_0000_0000_0000_0000_0000_0000_0000nat
}

/// `2^192`, one past the largest representable [`U192`] value.
#[verifier::inline]
pub open spec fn p192() -> nat {
    0x1_0000_0000_0000_0000_0000_0000_0000_0000_0000_0000_0000_0000nat
}

/// The word base as an executable constant.
pub const WORD_BASE: u128 = 0x1_0000_0000_0000_0000;

/// A 192-bit unsigned integer: value `lo + mid*2^64 + hi*2^128`.
#[derive(Clone, Copy, Debug, Default, PartialEq, Eq, PartialOrd, Ord, Structural)]
pub struct U192 {
    /// Most significant word (weight `2^128`).
    pub hi: u64,
    /// Middle word (weight `2^64`).
    pub mid: u64,
    /// Least significant word (weight `1`).
    pub lo: u64,
}

impl View for U192 {
    type V = nat;

    open spec fn view(&self) -> nat {
        self.lo as nat + (self.mid as nat) * p64() + (self.hi as nat) * p128()
    }
}

/// Every `U192` value lies below `2^192`.
pub proof fn lemma_u192_bound(x: U192)
    ensures
        x@ < p192(),
{
    assert((x.lo as nat) < p64());
    assert((x.mid as nat) * p64() <= (p64() - 1) * p64());
    assert((x.hi as nat) * p128() <= (p64() - 1) * p128());
}

/// Two `U192` values with the same mathematical value are the same triple
/// of words: the base-`2^64` decomposition is unique.
pub proof fn lemma_u192_value_injective(a: U192, b: U192)
    requires
        a@ == b@,
    ensures
        a == b,
{
    lemma_u192_decompose(a);
    lemma_u192_decompose(b);
}

/// The words of a `U192` are the base-`2^64` digits of its value.
pub proof fn lemma_u192_decompose(a: U192)
    ensures
        a.lo as nat == a@ % p64(),
        a.mid as nat == (a@ / p64()) % p64(),
        a.hi as nat == a@ / p128(),
{
    let v = a@ as int;
    vstd::arithmetic::div_mod::lemma_fundamental_div_mod_converse(
        v,
        p64() as int,
        a.mid + a.hi * p64(),
        a.lo as int,
    );
    vstd::arithmetic::div_mod::lemma_fundamental_div_mod_converse(
        a.mid + a.hi * p64(),
        p64() as int,
        a.hi as int,
        a.mid as int,
    );
    assert(a@ / p128() == (a@ / p64()) / p64()) by {
        vstd::arithmetic::div_mod::lemma_div_denominator(v, p64() as int, p64() as int);
    }
}

impl U192 {
    /// The zero value.
    pub fn zero() -> (r: U192)
        ensures
            r@ == 0,
    {
        U192 { hi: 0, mid: 0, lo: 0 }
    }

    /// The largest representable value, `2^192 - 1`.
    pub fn max_value() -> (r: U192)
        ensures
            r@ == p192() - 1,
    {
        U192 { hi: u64::MAX, mid: u64::MAX, lo: u64::MAX }
    }

    /// Whether the value is zero.
    pub fn is_zero(&self) -> (r: bool)
        ensures
            r <==> self@ == 0,
    {
        self.hi == 0 && self.mid == 0 && self.lo == 0
    }

    /// Widening construction from a 64-bit integer.
    pub fn from_u64(v: u64) -> (r: U192)
        ensures
            r@ == v,
    {
        U192 { hi: 0, mid: 0, lo: v }
    }

    /// Widening construction from a 128-bit integer.
    pub fn from_u128(v: u128) -> (r: U192)
        ensures
            r@ == v,
    {
        let lo: u64 = (v % WORD_BASE) as u64;
        let mid: u64 = (v / WORD_BASE) as u64;
        U192 { hi: 0, mid, lo }
    }

    /// Narrowing to 64 bits; reports the value when it fits.
    pub fn try_to_u64(&self) -> (r: Option<u64>)
        ensures
            r is Some <==> self@ <= u64::MAX,
            r is Some ==> r->Some_0 == self@,
    {
        if self.hi == 0 && self.mid == 0 {
            Some(self.lo)
        } else {
            assert(self@ >= p64());
            None
        }
    }

    /// Narrowing to 128 bits; reports the value when it fits.
    pub fn try_to_u128(&self) -> (r: Option<u128>)
        ensures
            r is Some <==> self@ <= u128::MAX,
            r is Some ==> r->Some_0 == self@,
    {
        if self.hi == 0 {
            let r: u128 = (self.mid as u128) * WORD_BASE + (self.lo as u128);
            Some(r)
        } else {
            assert(self@ >= p128());
            None
        }
    }

    /// Checked addition: the exact sum, or `None` when it exceeds `2^192 - 1`.
    pub fn checked_add(self, other: U192) -> (r: Option<U192>)
        ensures
            r is Some <==> self@ + other@ < p192(),
            r is Some ==> r->Some_0@ == self@ + other@,
            r is None ==> self@ + other@ >= p192(),
    {
        let t0: u128 = self.lo as u128 + other.lo as u128;
        let lo: u64 = (t0 % WORD_BASE) as u64;
        let c0: u64 = (t0 / WORD_BASE) as u64;
        let t1: u128 = self.mid as u128 + other.mid as u128 + c0 as u128;
        let mid: u64 = (t1 % WORD_BASE) as u64;
        let c1: u64 = (t1 / WORD_BASE) as u64;
        let t2: u128 = self.hi as u128 + other.hi as u128 + c1 as u128;
        let hi: u64 = (t2 % WORD_BASE) as u64;
        let c2: u64 = (t2 / WORD_BASE) as u64;
        let out = U192 { hi, mid, lo };
        proof {
            assert(t0 == (c0 as nat) * p64() + lo);
            assert(t1 == (c1 as nat) * p64() + mid);
            assert(t2 == (c2 as nat) * p64() + hi);
            assert(out@ + (c2 as nat) * p192() == self@ + other@);
            lemma_u192_bound(out);
        }
        if c2 == 0 {
            Some(out)
        } else {
            None
        }
    }

    /// Checked subtraction: the exact difference, or `None` when the
    /// subtrahend exceeds the minuend (an unsigned value cannot go negative).
    pub fn checked_sub(self, other: U192) -> (r: Option<U192>)
        ensures
            r is Some <==> other@ <= self@,
            r is Some ==> r->Some_0@ == self@ - other@,
    {
        let t0: u128 = WORD_BASE + self.lo as u128 - other.lo as u128;
        let lo: u64 = (t0 % WORD_BASE) as u64;
        let b0: u64 = 1 - (t0 / WORD_BASE) as u64;
        let t1: u128 = WORD_BASE + self.mid as u128 - other.mid as u128 - b0 as u128;
        let mid: u64 = (t1 % WORD_BASE) as u64;
        let b1: u64 = 1 - (t1 / WORD_BASE) as u64;
        let t2: u128 = WORD_BASE + self.hi as u128 - other.hi as u128 - b1 as u128;
        let hi: u64 = (t2 % WORD_BASE) as u64;
        let b2: u64 = 1 - (t2 / WORD_BASE) as u64;
        let out = U192 { hi, mid, lo };
        proof {
            assert(t0 == ((t0 / WORD_BASE) as nat) * p64() + lo);
            assert(t1 == ((t1 / WORD_BASE) as nat) * p64() + mid);
            assert(t2 == ((t2 / WORD_BASE) as nat) * p64() + hi);
            assert(out@ == self@ - other@ + (b2 as nat) * p192());
            lemma_u192_bound(out);
        }
        if b2 == 0 {
            Some(out)
        } else {
            None
        }
    }
}

} // verus!
