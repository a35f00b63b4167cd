use vstd::prelude::*;
use crate::todo::ok_date;

verus! {

/// Relies on `chrono::Local::now` and `DateTime::format` with the pattern
/// `"%Y-%m-%d %H:%M:%S"`: every character it emits is a digit, one of
/// `'-'`, `' '`, `':'`, or the sign written before a year outside
/// 0..=9999 — never a line break or a `'|'`. The value itself depends on
/// the clock, so nothing more is promised.
#[verifier::external_body]
pub fn now_date_chars() -> (r: Vec<char>)
    ensures
        ok_date(r@),
{
    chrono::Local::now().format("%Y-%m-%d %H:%M:%S").to_string().chars().collect()
}

} // verus!
