use seer::address::{unwrap_or_zero, Address};
use seer::amount::Amount;

#[test]
fn amount_wrapping_add_carries_across_limbs() {
    let a = Amount::from_limbs([u64::MAX, 0, 0, 0]);
    let r = a.wrapping_add(&Amount::from_u64(1));
    assert_eq!(r.to_limbs(), [0, 1, 0, 0]);
}

#[test]
fn amount_wrapping_add_wraps_at_max() {
    let r = Amount::max_value().wrapping_add(&Amount::from_u64(1));
    assert_eq!(r, Amount::zero());
}

#[test]
fn amount_wrapping_sub_borrows_and_wraps() {
    let a = Amount::from_limbs([0, 1, 0, 0]);
    assert_eq!(a.wrapping_sub(&Amount::from_u64(1)).to_limbs(), [u64::MAX, 0, 0, 0]);
    assert_eq!(Amount::zero().wrapping_sub(&Amount::from_u64(1)), Amount::max_value());
}

#[test]
fn amount_lt_compares_high_limbs_first() {
    let small = Amount::from_limbs([u64::MAX, 0, 0, 0]);
    let big = Amount::from_limbs([0, 0, 0, 1]);
    assert!(small.lt(&big));
    assert!(!big.lt(&small));
    assert!(!big.lt(&big));
}

#[test]
fn address_debug_text_is_lowercase_hex() {
    let a = Address::new(0x0102_0304_0506_0708_090a_0b0c_0d0e_0f10, 0xabcd_ef01);
    assert_eq!(a.debug_text(), "0x0102030405060708090a0b0c0d0e0f10abcdef01");
}

#[test]
fn zero_address_text() {
    assert_eq!(
        Address::zero().debug_text(),
        "0x0000000000000000000000000000000000000000"
    );
    assert_eq!(unwrap_or_zero(None), Address::zero());
    assert_eq!(unwrap_or_zero(Some(Address::new(1, 2))), Address::new(1, 2));
}
