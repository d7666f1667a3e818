use hello_web3::amount::Amount;
use hello_web3::error::Web3Error;
use hello_web3::units::{from_display, to_display};

fn max_amount() -> Amount {
    Amount { l0: u64::MAX, l1: u64::MAX, l2: u64::MAX, l3: u64::MAX }
}

#[test]
fn amount_arithmetic() {
    let a = Amount::from_u128(u128::MAX);
    let b = a.checked_add(&Amount::from_u64(1)).unwrap();
    assert_eq!(b, Amount { l0: 0, l1: 0, l2: 1, l3: 0 });
    assert_eq!(max_amount().checked_add(&Amount::from_u64(1)), None);
    assert_eq!(Amount::from_u64(7).checked_mul_u64(6), Some(Amount::from_u64(42)));
    assert_eq!(max_amount().checked_mul_u64(2), None);
    let (q, r) = Amount::from_u64(1234).div_rem_10();
    assert_eq!((q, r), (Amount::from_u64(123), 4));
    assert!(Amount::from_u64(3).lt(&Amount::from_u64(4)));
    assert!(!Amount::from_u64(4).lt(&Amount::from_u64(4)));
    assert!(Amount::zero().is_zero());
}

#[test]
fn zero_renders_as_zero() {
    assert_eq!(to_display(&Amount::zero(), 18, 6), "0");
}

#[test]
fn whole_units_have_no_point() {
    let one_eth = Amount::from_u128(3_000_000_000_000_000_000);
    assert_eq!(to_display(&one_eth, 18, 6), "3");
}

#[test]
fn transfer_fee_displays_exactly() {
    let fee = Amount::from_u128(21_000_000_000_000);
    assert_eq!(to_display(&fee, 18, 6), "0.000021");
    assert_eq!(to_display(&fee, 9, 2), "21000");
}

#[test]
fn below_one_unit_keeps_every_digit() {
    let a = Amount::from_u128(123_456_789_012_345_678);
    assert_eq!(to_display(&a, 18, 6), "0.123456789012345678");
}

#[test]
fn above_one_unit_cuts_the_fraction() {
    let a = Amount::from_u128(1_234_567_891_234_567_891);
    assert_eq!(to_display(&a, 18, 6), "1.234567");
    let b = Amount::from_u128(1_500_000_000_000_000_000);
    assert_eq!(to_display(&b, 18, 6), "1.5");
}

#[test]
fn display_round_trip_beyond_float_precision() {
    let a = Amount::from_u128(123_456_789_123_000_000_000_000);
    let s = to_display(&a, 18, 6);
    assert_eq!(s, "123456.789123");
    assert_eq!(from_display(&s, 18), Ok(a));
    let small = Amount::from_u128(9_007_199_254_740_993);
    let t = to_display(&small, 18, 6);
    assert_eq!(t, "0.009007199254740993");
    assert_eq!(from_display(&t, 18), Ok(small));
}

#[test]
fn display_round_trip_of_largest_amount() {
    let s = to_display(&max_amount(), 18, 18);
    assert_eq!(
        s,
        "115792089237316195423570985008687907853269984665640564039457.584007913129639935"
    );
    assert_eq!(from_display(&s, 18), Ok(max_amount()));
}

#[test]
fn parses_display_strings() {
    assert_eq!(from_display("0.001", 18), Ok(Amount::from_u128(1_000_000_000_000_000)));
    assert_eq!(from_display("2", 18), Ok(Amount::from_u128(2_000_000_000_000_000_000)));
    assert_eq!(from_display("0", 18), Ok(Amount::zero()));
}

#[test]
fn rejects_malformed_amounts() {
    for s in ["", "1.", ".5", "1.2.3", "abc", "-1", "1e18", " 1", "1,5", "0x10"] {
        assert_eq!(from_display(s, 18), Err(Web3Error::InvalidAmount), "{}", s);
    }
}

#[test]
fn rejects_amounts_past_256_bits() {
    let s = "115792089237316195423570985008687907853269984665640564039457.584007913129639936";
    assert_eq!(from_display(s, 18), Err(Web3Error::InvalidAmount));
}

#[test]
fn cut_digits_do_not_come_back() {
    let a = Amount::from_u128(123_456_789_123_456_789_000_000);
    let s = to_display(&a, 18, 6);
    assert_eq!(s, "123456.789123");
    assert_eq!(from_display(&s, 18), Ok(Amount::from_u128(123_456_789_123_000_000_000_000)));
}

#[test]
fn extra_fraction_digits_are_cut() {
    assert_eq!(from_display("0.0000000000000000001", 18), Ok(Amount::zero()));
    assert_eq!(
        from_display("1.2345678912345678919", 18),
        Ok(Amount::from_u128(1_234_567_891_234_567_891))
    );
    assert_eq!(from_display("1.59", 0), Ok(Amount::from_u64(1)));
    assert_eq!(from_display("15.230001000000000000", 9), Ok(Amount::from_u64(15_230_001_000)));
}
