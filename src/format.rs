//! The control characters of the persisted encoding.

use vstd::prelude::*;

verus! {

/// Ends a name.
pub const SEPARATOR: char = '\u{1}';

/// Opens a literal set.
pub const SET_START: char = '\u{2}';

/// Closes a literal set.
pub const SET_END: char = '\u{3}';

/// Union of the two operands before it.
pub const UNION: char = '\u{10}';

/// Intersection of the two operands before it.
pub const INTERSECTION: char = '\u{11}';

/// The first operand before it less the second.
pub const DIFFERENCE: char = '\u{12}';

/// `c` is one of the encoding's control characters.
pub open spec fn is_control(c: char) -> bool {
    c == SEPARATOR || c == SET_START || c == SET_END || c == UNION || c == INTERSECTION || c
        == DIFFERENCE
}

/// `s` holds none of the control characters, so it encodes as itself.
pub open spec fn is_plain(s: Seq<char>) -> bool {
    forall|i: int| 0 <= i < s.len() ==> !is_control(#[trigger] s[i])
}

/// Relies on `String::push`: the character is appended at the end.
#[verifier::external_body]
pub(crate) fn push_char(s: &mut String, c: char)
    ensures
        final(s)@ == old(s)@.push(c),
{
    s.push(c)
}

/// Relies on `String::push_str`: the text is appended at the end.
#[verifier::external_body]
pub(crate) fn push_text(s: &mut String, t: &str)
    ensures
        final(s)@ == old(s)@ + t@,
{
    s.push_str(t)
}

} // verus!
