//! Exact decimal values: rendering, comparison, accumulation.

use libdatadog::decimal::{DecNum, MAX_SCALE};

fn dec(neg: bool, mant: u128, scale: u32) -> DecNum {
    DecNum { neg, mant, scale }
}

#[test]
fn render_writes_the_canonical_form() {
    assert_eq!(dec(false, 0, 0).render(), "0");
    assert_eq!(dec(false, 269942, 0).render(), "269942");
    assert_eq!(dec(false, 215, 1).render(), "21.5");
    assert_eq!(dec(false, 150, 2).render(), "1.50");
    assert_eq!(dec(false, 5, 2).render(), "0.05");
    assert_eq!(dec(true, 25, 2).render(), "-0.25");
    assert_eq!(dec(false, 142690870216, 8).render(), "1426.90870216");
}

#[test]
fn le_orders_by_value_across_scales_and_signs() {
    assert!(dec(false, 15, 1).le(&dec(false, 2, 0))); // 1.5 <= 2
    assert!(!dec(false, 20, 0).le(&dec(false, 199, 1))); // 20 > 19.9
    assert!(dec(true, 1, 0).le(&dec(false, 0, 0))); // -1 <= 0
    assert!(dec(true, 0, 0).le(&dec(false, 0, 0))); // -0 <= 0
    assert!(dec(false, 0, 0).le(&dec(true, 0, 2))); // 0 <= -0.00
}

#[test]
fn acc_add_sums_exactly() {
    let acc = DecNum::zero_acc();
    let acc = acc.acc_add(dec(false, 1, 1)); // +0.1
    let acc = acc.acc_add(dec(false, 2, 1)); // +0.2
    let acc = acc.acc_add(dec(true, 5, 2)); // -0.05
    assert_eq!(acc.normal(), dec(false, 25, 2)); // exactly 0.25
}

#[test]
fn acc_add_crosses_zero() {
    let acc = DecNum::zero_acc().acc_add(dec(false, 3, 0));
    let acc = acc.acc_add(dec(true, 5, 0));
    assert_eq!(acc.normal(), dec(true, 2, 0)); // 3 - 5 == -2
}

#[test]
fn normal_strips_trailing_fraction_zeros_only() {
    assert_eq!(dec(false, 2_500_000, 6).normal(), dec(false, 25, 1));
    assert_eq!(dec(false, 105, 1).normal(), dec(false, 105, 1));
    assert_eq!(dec(false, 0, 5).normal(), dec(false, 0, 0));
    assert_eq!(dec(false, 300, 0).normal(), dec(false, 300, 0));
}

#[test]
fn max_scale_is_the_digit_budget() {
    assert_eq!(MAX_SCALE, 18);
}
