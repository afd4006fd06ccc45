//! Display strings the tracker table derives from plain values. The
//! remaining legendary actions are shown as a roman numeral.

use vstd::prelude::*;

verus! {

/// The roman numeral for `n`, for `n` in `1 ..= 3999`: named here, written
/// by the numeral library.
pub uninterp spec fn roman_numeral(n: int) -> Seq<char>;

/// Relies on roman::to: for arguments in `1 ..= 3999` it returns the
/// numeral, `None` otherwise, and the result depends on the number alone.
/// Arguments above `i32::MAX` wrap to negative values here and fall in the
/// `None` range either way.
#[verifier::external_body]
fn to_roman(n: u32) -> (r: Option<String>)
    ensures
        (r is Some) == (1 <= n <= 3999),
        r matches Some(s) ==> s@ == roman_numeral(n as int),
{
    roman::to(n as i32)
}

/// The legendary-action counter as the table shows it: the roman numeral
/// for a displayable count, an empty string for zero or for a count past
/// the numeral range.
pub fn legendary_actions_display(count: u32) -> (r: String)
    ensures
        1 <= count <= 3999 ==> r@ == roman_numeral(count as int),
        !(1 <= count <= 3999) ==> r@ == Seq::<char>::empty(),
{
    match to_roman(count) {
        Some(s) => s,
        None => String::new(),
    }
}

} // verus!
