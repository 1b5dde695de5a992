//! Library-wide laws, each proved once and for all inputs.
//!
//! The statements are written over the same views and spec-level formulas
//! that the operations' own contracts use, so each law composes directly
//! with those contracts.

use vstd::prelude::*;

use crate::common::BPS_SCALER;
use crate::common::PERCENT_SCALER;
use crate::common::WAD;
use crate::decimal::Decimal;
use crate::u192::p192;

verus! {

/// Law: converting a percentage to a decimal and back returns the original
/// value; `from_percent(p)` followed by `to_percent()` yields `Ok(p)`.
pub proof fn lemma_percent_round_trip(p: u8)
    requires
        p <= 100,
    ensures
        ((p as nat) * (PERCENT_SCALER as nat)) / (PERCENT_SCALER as nat) == p as nat,
        ((p as nat) * (PERCENT_SCALER as nat)) / (PERCENT_SCALER as nat) <= u128::MAX,
{
    vstd::arithmetic::div_mod::lemma_div_multiples_vanish(p as int, PERCENT_SCALER as int);
}

/// Law: converting a basis-point count to a decimal and back returns the
/// original value; `from_bps(b)` followed by `to_bps()` yields `Ok(b)`.
pub proof fn lemma_bps_round_trip(b: u16)
    ensures
        ((b as nat) * (BPS_SCALER as nat)) / (BPS_SCALER as nat) == b as nat,
        ((b as nat) * (BPS_SCALER as nat)) / (BPS_SCALER as nat) <= u128::MAX,
{
    vstd::arithmetic::div_mod::lemma_div_multiples_vanish(b as int, BPS_SCALER as int);
}

/// Law: for `b <= a`, `a.try_sub(b)` succeeds, and adding `b` back to the
/// difference returns exactly `a` with no overflow on the way.
pub proof fn lemma_sub_add_round_trip(a: Decimal, b: Decimal)
    requires
        b@ <= a@,
    ensures
        (a@ - b@) + b@ == a@,
        (a@ - b@) + b@ < p192(),
{
    crate::u192::lemma_u192_bound(a.0);
}

/// Law: a decimal is determined by its value: two decimals with the same
/// mathematical value are equal.
pub proof fn lemma_decimal_value_injective(x: Decimal, y: Decimal)
    requires
        x@ == y@,
    ensures
        x == y,
{
    crate::u192::lemma_u192_value_injective(x.0, y.0);
}

/// Law: one is the multiplicative identity and zero is absorbing:
/// `a.try_mul(one())` returns `a` unchanged and `a.try_mul(zero())`
/// returns zero, both without overflow.
pub proof fn lemma_mul_identity_absorbing(a: Decimal)
    ensures
        (a@ * (WAD as nat)) / (WAD as nat) == a@,
        (a@ * (WAD as nat)) / (WAD as nat) < p192(),
        (a@ * 0) / (WAD as nat) == 0,
{
    crate::u192::lemma_u192_bound(a.0);
    vstd::arithmetic::div_mod::lemma_div_multiples_vanish(a@ as int, WAD as int);
    assert(a@ * (WAD as nat) == (WAD as nat) * a@);
    assert(a@ * 0 == 0);
}

} // verus!
