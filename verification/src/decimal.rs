//! The scaled decimal type and its checked operations.
//!
//! A [`Decimal`] stores a 192-bit raw value interpreted as `raw / 10^18`.
//! Values are non-negative and immutable; every operation returns a fresh
//! value or a [`DecimalError::MathOverflow`] signal, and none panics.

use vstd::prelude::*;

use crate::common::DecimalError;
use crate::common::HALF_WAD;
use crate::common::PERCENT_SCALER;
use crate::common::BPS_SCALER;
use crate::common::WAD;
use crate::u192::p192;
use crate::u192::U192;
use crate::wide::div_rem;
use crate::wide::U384;

verus! {

/// Large decimal values, precise to 18 fractional digits.
#[derive(Clone, Copy, Debug, Default, PartialEq, Eq, PartialOrd, Ord, Structural)]
pub struct Decimal(pub U192);

impl View for Decimal {
    type V = nat;

    open spec fn view(&self) -> nat {
        self.0@
    }
}

/// Truncating division of a 192-bit value by a non-zero 192-bit divisor;
/// the quotient never outgrows the dividend's width.
fn div_u192(n: U192, d: U192) -> (r: U192)
    requires
        d@ > 0,
    ensures
        r@ == n@ / d@,
{
    let (q, _) = div_rem(U384::from_u192(n), d);
    proof {
        crate::u192::lemma_u192_bound(n);
        vstd::arithmetic::div_mod::lemma_div_nonincreasing(n@ as int, d@ as int);
    }
    match q.try_to_u192() {
        Some(v) => v,
        None => {
            proof {
                assert(false);
            }
            U192::zero()
        },
    }
}

impl Decimal {
    /// One, i.e. a raw value of one `WAD`.
    pub fn one() -> (r: Self)
        ensures
            r@ == WAD,
    {
        Decimal(Self::wad())
    }

    /// Zero.
    pub fn zero() -> (r: Self)
        ensures
            r@ == 0,
    {
        Decimal(U192::zero())
    }

    /// The scale factor `10^18` as a 192-bit value.
    pub fn wad() -> (r: U192)
        ensures
            r@ == WAD,
    {
        U192::from_u64(WAD)
    }

    /// Half the scale factor, used for round-to-nearest.
    pub fn half_wad() -> (r: U192)
        ensures
            r@ == HALF_WAD,
    {
        U192::from_u64(HALF_WAD)
    }

    /// Create a scaled decimal from a percent value.
    pub fn from_percent(percent: u8) -> (r: Self)
        ensures
            r@ == (percent as nat) * (PERCENT_SCALER as nat),
    {
        Decimal(U192::from_u64((percent as u64) * PERCENT_SCALER))
    }

    /// Create a scaled decimal from a percent value.
    ///
    /// The caller keeps `percent * PERCENT_SCALER` within 64 bits; the
    /// construction itself is deliberately unchecked.
    pub fn from_percent_u64(percent: u64) -> (r: Self)
        requires
            (percent as nat) * (PERCENT_SCALER as nat) <= u64::MAX,
        ensures
            r@ == (percent as nat) * (PERCENT_SCALER as nat),
    {
        Decimal(U192::from_u64(percent * PERCENT_SCALER))
    }

    /// The whole percent value of this decimal, truncated.
    pub fn to_percent(&self) -> (r: Result<u128, DecimalError>)
        ensures
            match r {
                Ok(v) => self@ / (PERCENT_SCALER as nat) <= u128::MAX && v == self@ / (PERCENT_SCALER as nat),
                Err(e) => self@ / (PERCENT_SCALER as nat) > u128::MAX && e == DecimalError::MathOverflow,
            },
    {
        let q = div_u192(self.0, U192::from_u64(PERCENT_SCALER));
        match q.try_to_u128() {
            Some(v) => Ok(v),
            None => Err(DecimalError::MathOverflow),
        }
    }

    /// The whole basis-point value of this decimal, truncated.
    pub fn to_bps(&self) -> (r: Result<u128, DecimalError>)
        ensures
            match r {
                Ok(v) => self@ / (BPS_SCALER as nat) <= u128::MAX && v == self@ / (BPS_SCALER as nat),
                Err(e) => self@ / (BPS_SCALER as nat) > u128::MAX && e == DecimalError::MathOverflow,
            },
    {
        let q = div_u192(self.0, U192::from_u64(BPS_SCALER));
        match q.try_to_u128() {
            Some(v) => Ok(v),
            None => Err(DecimalError::MathOverflow),
        }
    }

    /// Create a scaled decimal from a basis-point value.
    pub fn from_bps(bps: u16) -> (r: Self)
        ensures
            r@ == (bps as nat) * (BPS_SCALER as nat),
    {
        Decimal(U192::from_u64((bps as u64) * BPS_SCALER))
    }

    /// The raw scaled value, if it fits within a `u128`.
    pub fn to_scaled_val(&self) -> (r: Result<u128, DecimalError>)
        ensures
            match r {
                Ok(v) => self@ <= u128::MAX && v == self@,
                Err(e) => self@ > u128::MAX && e == DecimalError::MathOverflow,
            },
    {
        match self.0.try_to_u128() {
            Some(v) => Ok(v),
            None => Err(DecimalError::MathOverflow),
        }
    }

    /// Create a decimal from a raw value already on the 18-digit scale.
    pub fn from_scaled_val(scaled_val: u128) -> (r: Self)
        ensures
            r@ == scaled_val,
    {
        Decimal(U192::from_u128(scaled_val))
    }

    /// Create a decimal denoting the given whole number.
    ///
    /// The scaling multiplication cannot overflow: the largest `u64` times
    /// `WAD` still fits in 192 bits.
    pub fn from_integer(val: u64) -> (r: Self)
        ensures
            r@ == (val as nat) * (WAD as nat),
    {
        proof {
            assert((val as nat) * WAD < p192()) by (nonlinear_arith)
                requires
                    val <= u64::MAX,
            ;
        }
        Decimal(U192::from_u64(val).mul_word_exact(WAD))
    }

    /// Create a decimal denoting the given whole number.
    ///
    /// The scaling multiplication cannot overflow: the largest `u128` times
    /// `WAD` still fits in 192 bits.
    pub fn from_integer_u128(val: u128) -> (r: Self)
        ensures
            r@ == (val as nat) * (WAD as nat),
    {
        proof {
            assert((val as nat) * WAD < p192()) by (nonlinear_arith)
                requires
                    val <= u128::MAX,
            ;
        }
        Decimal(U192::from_u128(val).mul_word_exact(WAD))
    }

    /// Round to the nearest whole number, ties away from zero, as a `u64`.
    pub fn try_round_u64(&self) -> (r: Result<u64, DecimalError>)
        ensures
            match r {
                Ok(v) => self@ + (HALF_WAD as nat) < p192() && (self@ + (HALF_WAD as nat)) / (WAD as nat) <= u64::MAX && v
                    == (self@ + (HALF_WAD as nat)) / (WAD as nat),
                Err(e) => (self@ + (HALF_WAD as nat) >= p192() || (self@ + (HALF_WAD as nat)) / (WAD as nat) > u64::MAX) && e
                    == DecimalError::MathOverflow,
            },
    {
        match Self::half_wad().checked_add(self.0) {
            None => Err(DecimalError::MathOverflow),
            Some(sum) => {
                let q = div_u192(sum, Self::wad());
                match q.try_to_u64() {
                    Some(v) => Ok(v),
                    None => Err(DecimalError::MathOverflow),
                }
            },
        }
    }

    /// Round to the nearest whole number, ties away from zero, as a `u128`.
    pub fn try_round_u128(&self) -> (r: Result<u128, DecimalError>)
        ensures
            match r {
                Ok(v) => self@ + (HALF_WAD as nat) < p192() && (self@ + (HALF_WAD as nat)) / (WAD as nat) <= u128::MAX && v
                    == (self@ + (HALF_WAD as nat)) / (WAD as nat),
                Err(e) => (self@ + (HALF_WAD as nat) >= p192() || (self@ + (HALF_WAD as nat)) / (WAD as nat) > u128::MAX) && e
                    == DecimalError::MathOverflow,
            },
    {
        match Self::half_wad().checked_add(self.0) {
            None => Err(DecimalError::MathOverflow),
            Some(sum) => {
                let q = div_u192(sum, Self::wad());
                match q.try_to_u128() {
                    Some(v) => Ok(v),
                    None => Err(DecimalError::MathOverflow),
                }
            },
        }
    }

    /// Round up to the next whole number as a `u64`.
    pub fn try_ceil_u64(&self) -> (r: Result<u64, DecimalError>)
        ensures
            match r {
                Ok(v) => self@ + ((WAD - 1) as nat) < p192() && (self@ + ((WAD - 1) as nat)) / (WAD as nat) <= u64::MAX && v
                    == (self@ + ((WAD - 1) as nat)) / (WAD as nat),
                Err(e) => (self@ + ((WAD - 1) as nat) >= p192() || (self@ + ((WAD - 1) as nat)) / (WAD as nat) > u64::MAX)
                    && e == DecimalError::MathOverflow,
            },
    {
        let almost_one: u64 = WAD - 1;
        match U192::from_u64(almost_one).checked_add(self.0) {
            None => Err(DecimalError::MathOverflow),
            Some(sum) => {
                let q = div_u192(sum, Self::wad());
                match q.try_to_u64() {
                    Some(v) => Ok(v),
                    None => Err(DecimalError::MathOverflow),
                }
            },
        }
    }

    /// Round up to the next whole number as a `u128`.
    pub fn try_ceil_u128(&self) -> (r: Result<u128, DecimalError>)
        ensures
            match r {
                Ok(v) => self@ + ((WAD - 1) as nat) < p192() && (self@ + ((WAD - 1) as nat)) / (WAD as nat) <= u128::MAX && v
                    == (self@ + ((WAD - 1) as nat)) / (WAD as nat),
                Err(e) => (self@ + ((WAD - 1) as nat) >= p192() || (self@ + ((WAD - 1) as nat)) / (WAD as nat) > u128::MAX)
                    && e == DecimalError::MathOverflow,
            },
    {
        let almost_one: u64 = WAD - 1;
        match U192::from_u64(almost_one).checked_add(self.0) {
            None => Err(DecimalError::MathOverflow),
            Some(sum) => {
                let q = div_u192(sum, Self::wad());
                match q.try_to_u128() {
                    Some(v) => Ok(v),
                    None => Err(DecimalError::MathOverflow),
                }
            },
        }
    }

    /// Round down to the previous whole number as a `u64`.
    pub fn try_floor_u64(&self) -> (r: Result<u64, DecimalError>)
        ensures
            match r {
                Ok(v) => self@ / (WAD as nat) <= u64::MAX && v == self@ / (WAD as nat),
                Err(e) => self@ / (WAD as nat) > u64::MAX && e == DecimalError::MathOverflow,
            },
    {
        let q = div_u192(self.0, Self::wad());
        match q.try_to_u64() {
            Some(v) => Ok(v),
            None => Err(DecimalError::MathOverflow),
        }
    }

    /// Round down to the previous whole number as a `u128`.
    pub fn try_floor_u128(&self) -> (r: Result<u128, DecimalError>)
        ensures
            match r {
                Ok(v) => self@ / (WAD as nat) <= u128::MAX && v == self@ / (WAD as nat),
                Err(e) => self@ / (WAD as nat) > u128::MAX && e == DecimalError::MathOverflow,
            },
    {
        let q = div_u192(self.0, Self::wad());
        match q.try_to_u128() {
            Some(v) => Ok(v),
            None => Err(DecimalError::MathOverflow),
        }
    }

    /// Checked addition of two decimals.
    pub fn try_add(self, rhs: Self) -> (r: Result<Self, DecimalError>)
        ensures
            match r {
                Ok(d) => self@ + rhs@ < p192() && d@ == self@ + rhs@,
                Err(e) => self@ + rhs@ >= p192() && e == DecimalError::MathOverflow,
            },
    {
        match self.0.checked_add(rhs.0) {
            Some(v) => Ok(Decimal(v)),
            None => Err(DecimalError::MathOverflow),
        }
    }

    /// Checked subtraction of two decimals: fails whenever the true result
    /// would be negative.
    pub fn try_sub(self, rhs: Self) -> (r: Result<Self, DecimalError>)
        ensures
            match r {
                Ok(d) => rhs@ <= self@ && d@ == self@ - rhs@,
                Err(e) => rhs@ > self@ && e == DecimalError::MathOverflow,
            },
    {
        match self.0.checked_sub(rhs.0) {
            Some(v) => Ok(Decimal(v)),
            None => Err(DecimalError::MathOverflow),
        }
    }

    /// Checked multiplication by a native integer; the scale is unchanged.
    pub fn try_mul_u64(self, rhs: u64) -> (r: Result<Self, DecimalError>)
        ensures
            match r {
                Ok(d) => self@ * (rhs as nat) < p192() && d@ == self@ * (rhs as nat),
                Err(e) => self@ * (rhs as nat) >= p192() && e == DecimalError::MathOverflow,
            },
    {
        match self.0.checked_mul(U192::from_u64(rhs)) {
            Some(v) => Ok(Decimal(v)),
            None => Err(DecimalError::MathOverflow),
        }
    }

    /// Checked multiplication by a native integer; the scale is unchanged.
    pub fn try_mul_u128(self, rhs: u128) -> (r: Result<Self, DecimalError>)
        ensures
            match r {
                Ok(d) => self@ * (rhs as nat) < p192() && d@ == self@ * (rhs as nat),
                Err(e) => self@ * (rhs as nat) >= p192() && e == DecimalError::MathOverflow,
            },
    {
        match self.0.checked_mul(U192::from_u128(rhs)) {
            Some(v) => Ok(Decimal(v)),
            None => Err(DecimalError::MathOverflow),
        }
    }

    /// Checked multiplication of two decimals, rescaling the double-scale
    /// product back to 18 digits.
    ///
    /// The product is formed at double width before the rescaling division,
    /// so the operation fails only when the final rescaled result itself
    /// exceeds the 192-bit range.
    pub fn try_mul(self, rhs: Self) -> (r: Result<Self, DecimalError>)
        ensures
            match r {
                Ok(d) => (self@ * rhs@) / (WAD as nat) < p192() && d@ == (self@ * rhs@) / (WAD as nat),
                Err(e) => (self@ * rhs@) / (WAD as nat) >= p192() && e == DecimalError::MathOverflow,
            },
    {
        let prod = U384::mul_u192(self.0, rhs.0);
        let (q, _) = div_rem(prod, Self::wad());
        match q.try_to_u192() {
            Some(v) => Ok(Decimal(v)),
            None => Err(DecimalError::MathOverflow),
        }
    }

    /// Checked division by a native integer; fails only for a zero divisor.
    pub fn try_div_u64(self, rhs: u64) -> (r: Result<Self, DecimalError>)
        ensures
            match r {
                Ok(d) => rhs != 0 && d@ == self@ / (rhs as nat),
                Err(e) => rhs == 0 && e == DecimalError::MathOverflow,
            },
    {
        if rhs == 0 {
            Err(DecimalError::MathOverflow)
        } else {
            Ok(Decimal(div_u192(self.0, U192::from_u64(rhs))))
        }
    }

    /// Checked division by a native integer; fails only for a zero divisor.
    pub fn try_div_u128(self, rhs: u128) -> (r: Result<Self, DecimalError>)
        ensures
            match r {
                Ok(d) => rhs != 0 && d@ == self@ / (rhs as nat),
                Err(e) => rhs == 0 && e == DecimalError::MathOverflow,
            },
    {
        if rhs == 0 {
            Err(DecimalError::MathOverflow)
        } else {
            Ok(Decimal(div_u192(self.0, U192::from_u128(rhs))))
        }
    }

    /// Checked division of two decimals, pre-scaling the dividend to keep
    /// the 18-digit scale.
    ///
    /// The pre-scaled dividend is formed at double width, so the operation
    /// fails only for a zero divisor or when the final quotient itself
    /// exceeds the 192-bit range.
    pub fn try_div(self, rhs: Self) -> (r: Result<Self, DecimalError>)
        ensures
            match r {
                Ok(d) => rhs@ > 0 && (self@ * (WAD as nat)) / rhs@ < p192() && d@ == (self@ * (WAD as nat)) / rhs@,
                Err(e) => (rhs@ == 0 || (self@ * (WAD as nat)) / rhs@ >= p192()) && e
                    == DecimalError::MathOverflow,
            },
    {
        if rhs.0.is_zero() {
            Err(DecimalError::MathOverflow)
        } else {
            let scaled = U384::mul_u192(self.0, Self::wad());
            let (q, _) = div_rem(scaled, rhs.0);
            match q.try_to_u192() {
                Some(v) => Ok(Decimal(v)),
                None => Err(DecimalError::MathOverflow),
            }
        }
    }
}

} // verus!
