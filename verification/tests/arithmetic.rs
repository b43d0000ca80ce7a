use near_gas::{Gas, GasError, ONE_TGAS};

#[test]
fn test_tgas() {
    assert_eq!(Gas::from_tgas(1), Ok(Gas(1_000_000_000_000)));
    assert_eq!(Gas::from_tgas(300), Ok(Gas(300_000_000_000_000)))
}

#[test]
fn tgas_constant_is_ten_to_the_twelfth() {
    assert_eq!(ONE_TGAS, 10u64.pow(12));
    assert_eq!(Gas::from_tgas(0), Ok(Gas(0)));
}

#[test]
fn tgas_overflow_boundary() {
    // 18_446_744 * 10^12 still fits; one more does not.
    assert_eq!(
        Gas::from_tgas(18_446_744),
        Ok(Gas(18_446_744_000_000_000_000))
    );
    assert_eq!(Gas::from_tgas(18_446_745), Err(GasError::Overflow));
    assert_eq!(Gas::from_tgas(u64::MAX), Err(GasError::Overflow));
}

#[test]
fn from_raw_wraps_units() {
    assert_eq!(Gas::from_raw(0), Gas(0));
    assert_eq!(Gas::from_raw(42).0, 42);
    assert_eq!(Gas::from_raw(u64::MAX), Gas(u64::MAX));
}

#[test]
fn add_sums_or_overflows() {
    assert_eq!(Gas(2).add(Gas(3)), Ok(Gas(5)));
    assert_eq!(Gas(u64::MAX - 1).add(Gas(1)), Ok(Gas(u64::MAX)));
    assert_eq!(Gas(u64::MAX).add(Gas(1)), Err(GasError::Overflow));
    assert_eq!(Gas(u64::MAX).add(Gas(0)), Ok(Gas(u64::MAX)));
}

#[test]
fn add_in_place_leaves_value_on_failure() {
    let mut gas = Gas(10);
    assert_eq!(gas.add_in_place(Gas(5)), Ok(()));
    assert_eq!(gas, Gas(15));
    assert_eq!(gas.add_in_place(Gas(u64::MAX)), Err(GasError::Overflow));
    assert_eq!(gas, Gas(15));
}

#[test]
fn sub_subtracts_or_underflows() {
    assert_eq!(Gas(5).sub(Gas(3)), Ok(Gas(2)));
    assert_eq!(Gas(5).sub(Gas(5)), Ok(Gas(0)));
    assert_eq!(Gas(5).sub(Gas(6)), Err(GasError::Underflow));
    assert_eq!(Gas(0).sub(Gas(u64::MAX)), Err(GasError::Underflow));
}

#[test]
fn sub_in_place_leaves_value_on_failure() {
    let mut gas = Gas(10);
    assert_eq!(gas.sub_in_place(Gas(4)), Ok(()));
    assert_eq!(gas, Gas(6));
    assert_eq!(gas.sub_in_place(Gas(7)), Err(GasError::Underflow));
    assert_eq!(gas, Gas(6));
}

#[test]
fn mul_scalar_multiplies_or_overflows() {
    assert_eq!(Gas(6).mul_scalar(7), Ok(Gas(42)));
    assert_eq!(Gas(0).mul_scalar(u64::MAX), Ok(Gas(0)));
    assert_eq!(Gas(1 << 32).mul_scalar(1 << 31), Ok(Gas(1 << 63)));
    assert_eq!(Gas(1 << 32).mul_scalar(1 << 32), Err(GasError::Overflow));
    assert_eq!(Gas(ONE_TGAS).mul_scalar(300), Ok(Gas(300_000_000_000_000)));
}

#[test]
fn div_scalar_rounds_down() {
    assert_eq!(Gas(42).div_scalar(5), Ok(Gas(8)));
    assert_eq!(Gas(4).div_scalar(5), Ok(Gas(0)));
    assert_eq!(Gas(u64::MAX).div_scalar(1), Ok(Gas(u64::MAX)));
}

#[test]
fn rem_scalar_gives_what_is_left() {
    assert_eq!(Gas(42).rem_scalar(5), Ok(Gas(2)));
    assert_eq!(Gas(4).rem_scalar(5), Ok(Gas(4)));
    assert_eq!(Gas(u64::MAX).rem_scalar(10), Ok(Gas(5)));
}

#[test]
fn division_by_zero_is_an_error() {
    for units in [0, 1, 42, u64::MAX] {
        assert_eq!(Gas(units).div_scalar(0), Err(GasError::DivisionByZero));
        assert_eq!(Gas(units).rem_scalar(0), Err(GasError::DivisionByZero));
    }
}

#[test]
fn subtracting_then_adding_gives_the_first_amount() {
    let pairs = [
        (0u64, 0u64),
        (1, 0),
        (1, 1),
        (1_000, 999),
        (u64::MAX, 0),
        (u64::MAX, 1),
        (u64::MAX, u64::MAX),
        (300_000_000_000_000, 1_000_000_000_000),
    ];
    for (a, b) in pairs {
        let rest = Gas(a).sub(Gas(b)).unwrap();
        assert_eq!(rest.add(Gas(b)), Ok(Gas(a)));
    }
}

#[test]
fn quotient_and_remainder_rebuild_the_dividend() {
    let pairs = [
        (0u64, 1u64),
        (1, 1),
        (42, 5),
        (5, 42),
        (u64::MAX, 1),
        (u64::MAX, 2),
        (u64::MAX, u64::MAX),
        (u64::MAX - 1, u64::MAX),
        (300_000_000_000_000, 7),
    ];
    for (a, b) in pairs {
        let q = Gas(a).div_scalar(b).unwrap();
        let r = Gas(a).rem_scalar(b).unwrap();
        assert_eq!(q.mul_scalar(b).unwrap().add(r), Ok(Gas(a)));
    }
}

#[test]
fn converts_to_and_from_units() {
    let gas: Gas = 17u64.into();
    assert_eq!(gas, Gas(17));
    assert_eq!(Gas::from(u64::MAX), Gas(u64::MAX));
    let units: u64 = Gas(23).into();
    assert_eq!(units, 23);
    assert_eq!(u64::from(Gas(0)), 0);
}

#[test]
fn default_is_no_gas() {
    assert_eq!(Gas::default(), Gas(0));
}

#[test]
fn orders_by_units() {
    assert!(Gas(1) < Gas(2));
    assert!(Gas(2) > Gas(1));
    assert!(Gas(2) <= Gas(2));
    assert!(Gas(2) >= Gas(2));
    assert!(!(Gas(3) < Gas(3)));
    assert_eq!(Gas(1).partial_cmp(&Gas(2)), Some(std::cmp::Ordering::Less));
    assert_eq!(Gas(2).partial_cmp(&Gas(2)), Some(std::cmp::Ordering::Equal));
    assert_eq!(Gas(3).partial_cmp(&Gas(2)), Some(std::cmp::Ordering::Greater));
    assert_eq!(Gas(1).cmp(&Gas(2)), std::cmp::Ordering::Less);
    assert_eq!(Gas(u64::MAX).max(Gas(0)), Gas(u64::MAX));
    let mut amounts = vec![Gas(3), Gas(1), Gas(2)];
    amounts.sort();
    assert_eq!(amounts, vec![Gas(1), Gas(2), Gas(3)]);
}

#[test]
fn copies_freely() {
    let a = Gas(9);
    let b = a;
    let c = a.clone();
    assert_eq!(a, b);
    assert_eq!(a, c);
}

#[test]
fn every_error_has_words() {
    let errors = [
        GasError::InvalidDigit,
        GasError::Overflow,
        GasError::Underflow,
        GasError::DivisionByZero,
        GasError::DecodeError,
    ];
    for (i, e) in errors.iter().enumerate() {
        assert!(!e.message().is_empty());
        for other in &errors[i + 1..] {
            assert_ne!(e.message(), other.message());
        }
    }
    assert_eq!(GasError::DivisionByZero.message(), "division by zero");
    assert_eq!(
        GasError::InvalidDigit.message(),
        "invalid digit found in string"
    );
}
