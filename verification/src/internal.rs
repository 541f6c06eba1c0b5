//! Small text helpers used by the descriptor parsers.

use vstd::prelude::*;
use vstd::string::StrSliceExecFns;

verus! {

/// True when the first character of `s` is `first`; an empty string starts
/// with nothing.
pub fn starts_with(s: &str, first: char) -> (r: bool)
    ensures
        r == (s@.len() > 0 && s@[0] == first),
{
    let n = s.unicode_len();
    if n == 0 {
        false
    } else {
        s.get_char(0) == first
    }
}

/// True when the last character of `s` is `end`; an empty string ends
/// with nothing.
pub fn ends_with(s: &str, end: char) -> (r: bool)
    ensures
        r == (s@.len() > 0 && s@[s@.len() - 1] == end),
{
    let n = s.unicode_len();
    if n == 0 {
        false
    } else {
        s.get_char(n - 1) == end
    }
}

} // verus!
