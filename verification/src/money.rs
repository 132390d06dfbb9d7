//! Verified currency arithmetic and rendering.
//!
//! Amounts are integers in minor currency units (pence), quantities are
//! integers in hundredths of a unit, and VAT rates are integers in basis
//! points (hundredths of a percent), so no total ever suffers a floating
//! point rounding error.

use vstd::prelude::*;

verus! {

use vstd::string::StringExecFns;
use crate::numbers::append_dec_u64;
use crate::numbers::append_two_digits;
use crate::numbers::dec_digits;
use crate::numbers::hundredths_to_string;
use crate::numbers::magnitude_hundredths_chars;
use crate::numbers::two_digit_chars;

/// An upper bound on every line total: no product of two 32-bit values,
/// rounded to minor units, ever reaches it.
pub const LINE_TOTAL_BOUND: u64 = 0x400000000000000;

/// The rendering of `p` minor units: the currency sign, the major units in
/// decimal, a dot, and exactly two minor-unit digits.
pub open spec fn currency_chars(p: nat) -> Seq<char> {
    seq!['£'] + dec_digits(p / 100) + seq!['.'] + two_digit_chars((p % 100) as int)
}

/// Renders an amount of minor currency units for a document, as
/// `£<major>.<minor:02>`.
pub fn format_currency(pence: u32) -> (r: String)
    ensures
        r@ == currency_chars(pence as nat),
{
    let mut s = String::new();
    proof {
        reveal_strlit("£");
    }
    s.append("£");
    append_dec_u64(&mut s, (pence / 100) as u64);
    proof {
        reveal_strlit(".");
    }
    s.append(".");
    append_two_digits(&mut s, pence % 100);
    proof {
        assert(s@ =~= currency_chars(pence as nat));
    }
    s
}


/// Law: currency formatting is stable — the rendering is a function of the
/// amount alone, so formatting the same amount twice gives the same
/// characters.
pub proof fn lemma_format_currency_stable(p1: u32, p2: u32)
    requires
        p1 == p2,
    ensures
        currency_chars(p1 as nat) == currency_chars(p2 as nat),
{
}

/// The total of one line: unit price in minor units times the quantity in
/// hundredths of a unit, rounded half-up to whole minor units.
pub open spec fn line_total_spec(price: u32, qty: u32) -> nat {
    ((price * qty + 50) / 100) as nat
}

/// Every line total is below [`LINE_TOTAL_BOUND`], so document totals of
/// any number of lines fit comfortably in 128 bits.
pub proof fn lemma_line_total_bound(price: u32, qty: u32)
    ensures
        line_total_spec(price, qty) < LINE_TOTAL_BOUND,
{
    assert((price as int) * (qty as int) <= 0xffff_ffff * 0xffff_ffff) by (nonlinear_arith)
        requires
            price <= 0xffff_ffffu32,
            qty <= 0xffff_ffffu32,
    ;
}

/// Computes the total of one line from its unit price and quantity.
pub fn line_total(price: u32, qty: u32) -> (r: u64)
    ensures
        r == line_total_spec(price, qty),
        r < LINE_TOTAL_BOUND,
{
    proof {
        lemma_line_total_bound(price, qty);
        assert((price as int) * (qty as int) <= 0xffff_ffff * 0xffff_ffff) by (nonlinear_arith)
            requires
                price <= 0xffff_ffffu32,
                qty <= 0xffff_ffffu32,
        ;
    }
    ((price as u64) * (qty as u64) + 50) / 100
}

/// The VAT due on a line total at `rate` basis points, rounded half-up to
/// whole minor units.
pub open spec fn vat_spec(total: nat, rate: u16) -> nat {
    ((total * rate + 5000) / 10000) as nat
}

/// The VAT on a line never exceeds seven times the line total bound.
pub proof fn lemma_vat_bound(total: nat, rate: u16)
    requires
        total < LINE_TOTAL_BOUND,
    ensures
        vat_spec(total, rate) < 7 * LINE_TOTAL_BOUND,
{
    assert(total * rate <= total * 0xffff) by (nonlinear_arith)
        requires
            rate <= 0xffffu16,
            total >= 0,
    ;
    assert(total * 0xffff < LINE_TOTAL_BOUND * 0x10000) by (nonlinear_arith)
        requires
            total < LINE_TOTAL_BOUND,
    ;
}

/// Computes the VAT due on a line total at `rate` basis points.
pub fn vat_amount(total: u64, rate: u16) -> (r: u64)
    requires
        total < LINE_TOTAL_BOUND,
    ensures
        r == vat_spec(total as nat, rate),
        r < 7 * LINE_TOTAL_BOUND,
{
    proof {
        lemma_vat_bound(total as nat, rate);
    }
    (((total as u128) * (rate as u128) + 5000) / 10000) as u64
}

/// The rendering of a VAT rate in basis points: `"No VAT"` for a zero
/// rate, else the rate as a percentage.
pub open spec fn vat_rate_chars(bp: u16) -> Seq<char> {
    if bp == 0 {
        "No VAT"@
    } else {
        magnitude_hundredths_chars(bp as nat) + seq!['%']
    }
}

/// Renders a VAT rate in basis points for a document.
pub fn vat_rate_string(bp: u16) -> (r: String)
    ensures
        r@ == vat_rate_chars(bp),
{
    if bp == 0 {
        String::from_str("No VAT")
    } else {
        let mut s = hundredths_to_string(bp as i64);
        proof {
            reveal_strlit("%");
        }
        s.append("%");
        proof {
            assert(s@ =~= vat_rate_chars(bp));
        }
        s
    }
}

} // verus!
