use hordegrid::fx::{isqrt_u64, trunc_div_i64, Fixed, HALF_RAW, ONE_RAW};

#[test]
fn when_constructing_then_constants_are_exact() {
    assert_eq!(Fixed::from_int(3).0, 3 * 65536);
    assert_eq!(Fixed::ratio(1, 2), Fixed::half());
    assert_eq!(Fixed::ratio(-3, 2).floor_int(), -2);
    assert_eq!(Fixed::from_int(-1).floor_int(), -1);
}

#[test]
fn when_dividing_by_zero_in_release_semantics_then_zero() {
    assert_eq!(isqrt_u64(0), 0);
    assert_eq!(isqrt_u64(15), 3);
    assert_eq!(isqrt_u64(16), 4);
    assert_eq!(isqrt_u64(u64::MAX), 4_294_967_295);
}

#[test]
fn fixed_division_by_zero_is_zero() {
    assert_eq!(Fixed::from_int(7) / Fixed::zero(), Fixed::zero());
    assert_eq!(Fixed::from_int(-7) / Fixed::zero(), Fixed::zero());
}

#[test]
fn fixed_arithmetic_saturates() {
    assert_eq!(Fixed(i32::MAX) + Fixed(1), Fixed(i32::MAX));
    assert_eq!(Fixed(i32::MIN) - Fixed(1), Fixed(i32::MIN));
    assert_eq!(-Fixed(i32::MIN), Fixed(i32::MAX));
    assert_eq!(Fixed::from_int(40000), Fixed(i32::MAX));
    assert_eq!(Fixed::from_int(-40000), Fixed(i32::MIN));
    assert_eq!(Fixed(i32::MAX) * Fixed::from_int(2), Fixed(i32::MAX));
    assert_eq!(Fixed(3).mul_int(i32::MAX), Fixed(i32::MAX));
}

#[test]
fn fixed_addition_is_commutative_on_samples() {
    let samples = [i32::MIN, -65536, -1, 0, 1, 12345, 65536, i32::MAX];
    for &a in &samples {
        for &b in &samples {
            assert_eq!(Fixed(a) + Fixed(b), Fixed(b) + Fixed(a));
            assert_eq!(Fixed(a) * Fixed(b), Fixed(b) * Fixed(a));
        }
    }
}

#[test]
fn fixed_multiplying_by_one_is_identity() {
    for a in [i32::MIN, -98765, -1, 0, 1, 98765, i32::MAX] {
        assert_eq!(Fixed(a) * Fixed::one(), Fixed(a));
    }
}

#[test]
fn fixed_division_inverts_multiplication_for_small_values() {
    for a in [-300, -17, 0, 5, 299] {
        for b in [1, 3, 50, 99] {
            let fa = Fixed::from_int(a);
            let fb = Fixed::from_int(b);
            assert_eq!((fa * fb) / fb, fa);
        }
    }
}

#[test]
fn fixed_products_and_quotients_have_exact_values() {
    assert_eq!(Fixed::half() * Fixed::half(), Fixed(16384));
    assert_eq!(Fixed::from_int(3) / Fixed::from_int(2), Fixed(98304));
    assert_eq!(Fixed::from_int(-3) / Fixed::from_int(2), Fixed(-98304));
    assert_eq!(Fixed(-1) * Fixed(1), Fixed(-1));
    assert_eq!(Fixed::ratio(-1, 3), Fixed(-21845));
}

#[test]
fn fixed_helpers_have_exact_values() {
    assert_eq!(Fixed(-5).abs(), Fixed(5));
    assert_eq!(Fixed(i32::MIN).abs(), Fixed(i32::MAX));
    assert_eq!(Fixed(10).clamp(Fixed(0), Fixed(4)), Fixed(4));
    assert_eq!(Fixed(-10).clamp(Fixed(0), Fixed(4)), Fixed(0));
    assert_eq!(Fixed::len_sq(Fixed(3), Fixed(-4)), 25);
    assert_eq!(Fixed(-7).sq(), 49);
    assert_eq!(Fixed::one().0, ONE_RAW);
    assert_eq!(Fixed::half().0, HALF_RAW);
    assert_eq!(Fixed::epsilon().0, 1);
    assert_eq!(Fixed::FRAC_BITS, 16);
}

#[test]
fn fixed_compound_assignment_saturates() {
    let mut a = Fixed(i32::MAX - 1);
    a += Fixed(5);
    assert_eq!(a, Fixed(i32::MAX));
    let mut b = Fixed(10);
    b -= Fixed(25);
    assert_eq!(b, Fixed(-15));
}

#[test]
fn truncating_division_rounds_toward_zero() {
    assert_eq!(trunc_div_i64(7, 2), 3);
    assert_eq!(trunc_div_i64(-7, 2), -3);
    assert_eq!(trunc_div_i64(7, -2), -3);
    assert_eq!(trunc_div_i64(-7, -2), 3);
}

#[test]
fn integer_square_root_is_the_floor() {
    for n in [1u64, 2, 3, 4, 99, 100, 101, 1 << 40, (1 << 40) - 1] {
        let r = isqrt_u64(n);
        assert!(r * r <= n);
        assert!((r + 1) * (r + 1) > n);
    }
}
