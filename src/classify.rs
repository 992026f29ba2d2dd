//! Deciding whether a line of a staged diff ends in trailing whitespace.

use vstd::prelude::*;
use vstd::string::*;
use vstd::utf8::*;

verus! {

/// A space or a tab.
pub open spec fn is_blank(c: char) -> bool {
    c == ' ' || c == '\t'
}

/// The text of a diff line without its line terminator (diff lines end in LF only).
pub open spec fn line_text(s: Seq<char>) -> Seq<char> {
    if s.len() > 0 && s.last() == '\n' {
        s.drop_last()
    } else {
        s
    }
}

/// The text of the line, terminator aside, ends in a space or a tab.
pub open spec fn ends_in_blank(s: Seq<char>) -> bool {
    let t = line_text(s);
    t.len() > 0 && is_blank(t.last())
}

/// The raw bytes of a diff line are UTF-8 text that ends in trailing whitespace.
pub open spec fn line_flagged(raw: Seq<u8>) -> bool {
    valid_utf8(raw) && ends_in_blank(decode_utf8(raw))
}

/// Tells whether a decoded diff line ends in a space or a tab, before its
/// optional line feed.
pub fn trailing_whitespaces(s: &str) -> (r: bool)
    ensures
        r == ends_in_blank(s@),
{
    let n = s.unicode_len();
    if n == 0 {
        return false;
    }
    let last = s.get_char(n - 1);
    if last == ' ' || last == '\t' {
        true
    } else if last == '\n' && n >= 2 {
        let before = s.get_char(n - 2);
        before == ' ' || before == '\t'
    } else {
        false
    }
}

/// Relies on std::str::from_utf8: it succeeds exactly on valid UTF-8, and
/// the text it gives is what the bytes encode.
#[verifier::external_body]
fn decode_text(b: &[u8]) -> (r: Option<&str>)
    ensures
        r is Some <==> valid_utf8(b@),
        r matches Some(s) ==> s@ == decode_utf8(b@),
{
    std::str::from_utf8(b).ok()
}

/// Tells whether the raw content of a diff line is text that ends in trailing
/// whitespace. Content that is not valid UTF-8 is never flagged.
pub fn is_flagged_line(content: &[u8]) -> (r: bool)
    ensures
        r == line_flagged(content@),
{
    match decode_text(content) {
        Some(s) => trailing_whitespaces(s),
        None => false,
    }
}

} // verus!
