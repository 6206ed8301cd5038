use eudalloc::error::EudError;
use eudalloc::rlocint::{RlocInt, RLOCMODE_CONST, RLOCMODE_EPD, RLOCMODE_PTR};

#[test]
fn new_and_getters() {
    let x = RlocInt::new(0x40, RLOCMODE_PTR);
    assert_eq!(x.offset, 0x40);
    assert_eq!(x.rlocmode, 4);
    assert!(x.is_ptr());
    assert!(x.is_aligned_ptr());
    assert!(!x.is_epd());
    let e = RlocInt::new(7, RLOCMODE_EPD);
    assert!(e.is_epd());
    assert!(!e.is_ptr());
    assert!(!RlocInt::new(6, RLOCMODE_PTR).is_aligned_ptr());
    assert_eq!(RlocInt::new(9, RLOCMODE_CONST).rlocmode, 0);
}

#[test]
fn add_sub_identity() {
    let x = RlocInt::new(100, 4);
    let a = RlocInt::new(-3, 1);
    assert_eq!(x.wrapping_add(&a).wrapping_sub(&a), x);
    assert_eq!(x.wrapping_add_i32(77).wrapping_sub_i32(77), x);
    // the identity holds under wraparound too
    let big = RlocInt::new(i32::MAX, 4);
    let one = RlocInt::new(1, 0);
    assert_eq!(big.wrapping_add(&one).wrapping_sub(&one), big);
}

#[test]
fn add_combines_modes_linearly() {
    let x = RlocInt::new(8, 4);
    let y = RlocInt::new(4, 1);
    let s = x.wrapping_add(&y);
    assert_eq!(s, RlocInt::new(12, 5));
    let d = x.wrapping_sub(&y);
    assert_eq!(d, RlocInt::new(4, 3));
    // a plain integer leaves the mode alone
    assert_eq!(x.wrapping_add_i32(5), RlocInt::new(13, 4));
    assert_eq!(x.rsub_i32(10), RlocInt::new(2, -4));
}

#[test]
fn neg_flips_both_components() {
    let x = RlocInt::new(12, 4);
    assert_eq!(x.wrapping_neg(), RlocInt::new(-12, -4));
    assert_eq!(RlocInt::new(-7, 0).wrapping_neg(), RlocInt::new(7, 0));
}

#[test]
fn mul_one_is_identity() {
    let x = RlocInt::new(-55, 1);
    assert_eq!(x.wrapping_mul_i32(1), x);
    let c = RlocInt::new(1, 0);
    assert_eq!(x.try_mul(&c), Ok(x));
}

#[test]
fn mul_requires_const_operand() {
    let x = RlocInt::new(3, 4);
    let y = RlocInt::new(2, 1);
    assert_eq!(x.try_mul(&y), Err(EudError::InvalidMode));
    assert_eq!(x.try_mul(&RlocInt::new(2, 0)), Ok(RlocInt::new(6, 8)));
}

#[test]
fn div_of_relocated_requires_divisibility() {
    // offset not divisible
    assert_eq!(RlocInt::new(5, 4).try_div_i32(2), Err(EudError::NotDivisible));
    // mode not divisible
    assert_eq!(RlocInt::new(4, 1).try_div_i32(2), Err(EudError::NotDivisible));
    // both divisible: succeeds, and multiplying back restores the value
    let x = RlocInt::new(8, 4);
    let q = x.try_div_i32(2).unwrap();
    assert_eq!(q, RlocInt::new(4, 2));
    assert_eq!(q.wrapping_mul_i32(2), x);
}

#[test]
fn div_of_const_floors() {
    assert_eq!(RlocInt::new(7, 0).try_div_i32(2), Ok(RlocInt::new(3, 0)));
    assert_eq!(RlocInt::new(-7, 0).try_div_i32(2), Ok(RlocInt::new(-4, 0)));
    assert_eq!(RlocInt::new(7, 0).try_div_i32(-2), Ok(RlocInt::new(-4, 0)));
    let d = RlocInt::new(4, 1);
    assert_eq!(RlocInt::new(8, 0).try_div(&d), Err(EudError::InvalidMode));
    assert_eq!(RlocInt::new(8, 0).try_div(&RlocInt::new(4, 0)), Ok(RlocInt::new(2, 0)));
}

#[test]
fn rem_follows_div_conditions() {
    assert_eq!(RlocInt::new(5, 4).try_rem_i32(2), Err(EudError::NotDivisible));
    assert_eq!(RlocInt::new(8, 4).try_rem_i32(2), Ok(RlocInt::new(0, 0)));
    assert_eq!(RlocInt::new(7, 0).try_rem_i32(4), Ok(RlocInt::new(3, 0)));
    assert_eq!(RlocInt::new(-7, 0).try_rem_i32(4), Ok(RlocInt::new(1, 0)));
    assert_eq!(RlocInt::new(3, 4).try_rem(&RlocInt::new(2, 1)), Err(EudError::InvalidMode));
}

#[test]
fn bitwise_mode_restrictions() {
    // constant values take any mask
    assert_eq!(RlocInt::new(0b1100, 0).try_and_i32(0b1010), Ok(RlocInt::new(0b1000, 0)));
    assert_eq!(RlocInt::new(0b1100, 0).try_or_i32(0b1010), Ok(RlocInt::new(0b1110, 0)));
    // a pointer only takes masks 0..=3
    assert_eq!(RlocInt::new(13, 4).try_and_i32(3), Ok(RlocInt::new(1, 4)));
    assert_eq!(RlocInt::new(13, 4).try_and_i32(8), Err(EudError::InvalidMode));
    assert_eq!(RlocInt::new(13, 4).try_or_i32(2), Ok(RlocInt::new(15, 4)));
    assert_eq!(RlocInt::new(13, 4).try_or_i32(4), Err(EudError::InvalidMode));
    // an EPD value takes part in neither
    assert_eq!(RlocInt::new(13, 1).try_and_i32(3), Err(EudError::InvalidMode));
    assert_eq!(RlocInt::new(13, 1).try_or_i32(3), Err(EudError::InvalidMode));
    // two relocatable values only combine when both are constants
    assert_eq!(
        RlocInt::new(12, 0).try_and(&RlocInt::new(10, 0)),
        Ok(RlocInt::new(8, 0))
    );
    assert_eq!(
        RlocInt::new(12, 4).try_and(&RlocInt::new(10, 0)),
        Err(EudError::InvalidMode)
    );
    assert_eq!(
        RlocInt::new(12, 0).try_or(&RlocInt::new(10, 4)),
        Err(EudError::InvalidMode)
    );
}

#[test]
fn invert_only_const() {
    assert_eq!(RlocInt::new(0, 0).try_invert(), Ok(RlocInt::new(-1, 0)));
    assert_eq!(RlocInt::new(0, 4).try_invert(), Err(EudError::InvalidMode));
}
