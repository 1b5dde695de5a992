use wad_decimal::Decimal;
use wad_decimal::DecimalError;
use wad_decimal::SCALE;
use wad_decimal::U192;
use wad_decimal::WAD;

#[test]
fn test_scaler() {
    assert_eq!(U192::exp10(SCALE), Decimal::wad());
}

#[test]
fn test_decimal_from_to_percent() {
    let pct = 10; // 10%
    let x = Decimal::from_percent(pct);
    let pct_actual = x.to_percent().unwrap();

    assert_eq!(pct as u128, pct_actual);
}

#[test]
fn test_percent_round_trip_whole_range() {
    let mut p: u8 = 0;
    while p <= 100 {
        assert_eq!(Decimal::from_percent(p).to_percent(), Ok(p as u128));
        if p == 100 {
            break;
        }
        p += 1;
    }
}

#[test]
fn test_bps_round_trip() {
    for b in [0u16, 1, 10_000, 65_535] {
        assert_eq!(Decimal::from_bps(b).to_bps(), Ok(b as u128));
    }
}

#[test]
fn test_one_renders() {
    assert_eq!(Decimal::one().to_display_string(), "1.000000000000000000");
}

#[test]
fn test_zero_renders() {
    assert_eq!(Decimal::zero().to_display_string(), "0.000000000000000000");
}

#[test]
fn test_display_small_and_large() {
    assert_eq!(
        Decimal::from_scaled_val(1).to_display_string(),
        "0.000000000000000001"
    );
    assert_eq!(
        Decimal::from_scaled_val(1_500_000_000_000_000_000).to_display_string(),
        "1.500000000000000000"
    );
    assert_eq!(
        Decimal::from_integer(12).to_display_string(),
        "12.000000000000000000"
    );
}

#[test]
fn test_sub_add_round_trip() {
    let a = Decimal::from_integer(7);
    let b = Decimal::from_scaled_val(123_456_789);
    let diff = a.try_sub(b).unwrap();
    assert_eq!(diff.try_add(b), Ok(a));
}

#[test]
fn test_sub_underflow_fails() {
    let small = Decimal::from_scaled_val(5);
    let large = Decimal::from_scaled_val(6);
    assert_eq!(small.try_sub(large), Err(DecimalError::MathOverflow));
}

#[test]
fn test_add_overflow_fails() {
    let max = Decimal(U192::max_value());
    assert_eq!(
        max.try_add(Decimal::from_scaled_val(1)),
        Err(DecimalError::MathOverflow)
    );
}

#[test]
fn test_div_by_zero_fails() {
    let a = Decimal::from_integer(3);
    assert_eq!(a.try_div(Decimal::zero()), Err(DecimalError::MathOverflow));
    assert_eq!(a.try_div_u64(0), Err(DecimalError::MathOverflow));
    assert_eq!(a.try_div_u128(0), Err(DecimalError::MathOverflow));
    let max = Decimal(U192::max_value());
    assert_eq!(max.try_div(Decimal::zero()), Err(DecimalError::MathOverflow));
}

#[test]
fn test_mul_then_round() {
    let product = Decimal::from_integer(5).try_mul(Decimal::from_integer(3)).unwrap();
    assert_eq!(product.try_round_u64(), Ok(15));
}

#[test]
fn test_rounding_modes_at_one_and_a_half() {
    let x = Decimal::from_scaled_val(1_500_000_000_000_000_000);
    assert_eq!(x.try_round_u64(), Ok(2));
    assert_eq!(x.try_ceil_u64(), Ok(2));
    assert_eq!(x.try_floor_u64(), Ok(1));
    assert_eq!(x.try_round_u128(), Ok(2));
    assert_eq!(x.try_ceil_u128(), Ok(2));
    assert_eq!(x.try_floor_u128(), Ok(1));
}

#[test]
fn test_round_is_half_up() {
    let just_below = Decimal::from_scaled_val(1_499_999_999_999_999_999);
    assert_eq!(just_below.try_round_u64(), Ok(1));
    let just_above = Decimal::from_scaled_val(1_500_000_000_000_000_001);
    assert_eq!(just_above.try_round_u64(), Ok(2));
}

#[test]
fn test_ceil_exact_value_stays() {
    assert_eq!(Decimal::from_integer(3).try_ceil_u64(), Ok(3));
    let raw = 3u128 * WAD as u128 + 1;
    assert_eq!(Decimal::from_scaled_val(raw).try_ceil_u64(), Ok(4));
}

#[test]
fn test_mul_identity_and_absorbing_at_max() {
    let max = Decimal(U192::max_value());
    assert_eq!(max.try_mul(Decimal::one()), Ok(max));
    assert_eq!(max.try_mul(Decimal::zero()), Ok(Decimal::zero()));
    let a = Decimal::from_integer(42);
    assert_eq!(a.try_mul(Decimal::one()), Ok(a));
    assert_eq!(a.try_mul(Decimal::zero()), Ok(Decimal::zero()));
}

#[test]
fn test_mul_by_native_integers() {
    let six = Decimal::from_integer(2).try_mul_u64(3).unwrap();
    assert_eq!(six, Decimal::from_integer(6));
    let six_again = Decimal::from_integer(2).try_mul_u128(3).unwrap();
    assert_eq!(six_again, Decimal::from_integer(6));
}

#[test]
fn test_mul_overflow_fails() {
    let max = Decimal(U192::max_value());
    assert_eq!(max.try_mul_u64(2), Err(DecimalError::MathOverflow));
    assert_eq!(
        max.try_mul(Decimal::from_integer(2)),
        Err(DecimalError::MathOverflow)
    );
}

#[test]
fn test_div_by_native_integers() {
    assert_eq!(
        Decimal::from_integer(6).try_div_u64(3),
        Ok(Decimal::from_integer(2))
    );
    assert_eq!(
        Decimal::from_integer(6).try_div_u128(3),
        Ok(Decimal::from_integer(2))
    );
}

#[test]
fn test_div_decimal_truncates() {
    assert_eq!(
        Decimal::from_integer(6).try_div(Decimal::from_integer(3)),
        Ok(Decimal::from_integer(2))
    );
    let third = Decimal::from_integer(1).try_div(Decimal::from_integer(3)).unwrap();
    assert_eq!(third.to_scaled_val(), Ok(333_333_333_333_333_333));
}

#[test]
fn test_scaled_val_round_trip() {
    assert_eq!(
        Decimal::from_scaled_val(u128::MAX).to_scaled_val(),
        Ok(u128::MAX)
    );
    assert_eq!(Decimal::from_scaled_val(0).to_scaled_val(), Ok(0));
}

#[test]
fn test_to_scaled_val_overflow_fails() {
    let max = Decimal(U192::max_value());
    assert_eq!(max.to_scaled_val(), Err(DecimalError::MathOverflow));
}

#[test]
fn test_round_overflow_fails() {
    let max = Decimal(U192::max_value());
    assert_eq!(max.try_round_u64(), Err(DecimalError::MathOverflow));
    assert_eq!(max.try_ceil_u128(), Err(DecimalError::MathOverflow));
}

#[test]
fn test_floor_narrowing() {
    let big = Decimal::from_integer_u128(u64::MAX as u128 + 1);
    assert_eq!(big.try_floor_u64(), Err(DecimalError::MathOverflow));
    assert_eq!(big.try_floor_u128(), Ok(u64::MAX as u128 + 1));
}

#[test]
fn test_from_percent_u64() {
    let x = Decimal::from_percent_u64(150);
    assert_eq!(x.to_percent(), Ok(150));
}

#[test]
fn test_from_integer_u128_scales() {
    let x = Decimal::from_integer_u128(7);
    assert_eq!(x.to_scaled_val(), Ok(7u128 * WAD as u128));
}

#[test]
fn test_ordering_follows_value() {
    assert!(Decimal::from_integer(1) < Decimal::from_integer(2));
    assert!(Decimal(U192::max_value()) > Decimal::one());
    assert!(Decimal::zero() < Decimal::from_scaled_val(1));
    assert_eq!(Decimal::from_integer(1), Decimal::one());
}

#[test]
fn test_u192_checked_edges() {
    assert_eq!(U192::max_value().checked_add(U192::from_u64(1)), None);
    assert_eq!(
        U192::from_u64(5).checked_sub(U192::from_u64(6)),
        None
    );
    assert_eq!(
        U192::from_u64(5).checked_sub(U192::from_u64(5)),
        Some(U192::from_u64(0))
    );
    assert_eq!(U192::exp10(0), U192::from_u64(1));
}
