//! The copyright line of the start page.
use crate::text::append_str;
use crate::tokens::{push_signed, signed_decimal};
use vstd::prelude::*;

verus! {

/// The years the copyright covers: the first year alone until a later year,
/// then the range from the first year to the current one.
pub open spec fn copyright_text(current_year: int) -> Seq<char> {
    if current_year <= 2026 {
        "2026"@
    } else {
        "2026–"@ + signed_decimal(current_year)
    }
}

pub fn copyright_years(current_year: i32) -> (r: String)
    ensures
        r@ == copyright_text(current_year as int),
{
    let mut out = String::new();
    if current_year <= 2026 {
        append_str(&mut out, "2026");
    } else {
        append_str(&mut out, "2026–");
        push_signed(&mut out, current_year as i64);
    }
    out
}

} // verus!
