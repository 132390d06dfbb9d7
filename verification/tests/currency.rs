//! Currency and rate rendering.

use ftf_docs::money::{format_currency, line_total, vat_amount, vat_rate_string};

#[test]
fn format_currency_zero() {
    assert_eq!(format_currency(0).as_str(), "£0.00");
}

#[test]
fn format_currency_pounds_and_pence() {
    assert_eq!(format_currency(12345).as_str(), "£123.45");
}

#[test]
fn format_currency_pence_only() {
    assert_eq!(format_currency(7).as_str(), "£0.07");
}

#[test]
fn format_currency_round_pounds() {
    assert_eq!(format_currency(100).as_str(), "£1.00");
}

#[test]
fn format_currency_is_stable() {
    for pence in [0u32, 1, 99, 100, 12345, 4_294_967_295] {
        assert_eq!(format_currency(pence), format_currency(pence));
    }
}

#[test]
fn line_total_rounds_half_up() {
    // 1.50 a unit, quantity 2.00 -> 3.00
    assert_eq!(line_total(150, 200), 300);
    // 0.01 a unit, quantity 0.50 -> half a penny rounds up
    assert_eq!(line_total(1, 50), 1);
    // 0.01 a unit, quantity 0.49 -> rounds down
    assert_eq!(line_total(1, 49), 0);
}

#[test]
fn vat_amount_fifth() {
    // 20.00 at 20% -> 4.00
    assert_eq!(vat_amount(2000, 2000), 400);
}

#[test]
fn vat_rate_string_zero_is_no_vat() {
    assert_eq!(vat_rate_string(0).as_str(), "No VAT");
}

#[test]
fn vat_rate_string_whole_percent() {
    assert_eq!(vat_rate_string(2000).as_str(), "20%");
}

#[test]
fn vat_rate_string_fractional_percent() {
    assert_eq!(vat_rate_string(1750).as_str(), "17.5%");
    assert_eq!(vat_rate_string(1234).as_str(), "12.34%");
}
