//! Boundary to the text facilities the library leans on: lossy UTF-8
//! decoding, UTF-8 encoding, Unicode display widths and the Unicode
//! white-space predicate. Each outside call sits behind one trusted item;
//! everything that computes on the results is verified elsewhere.

use vstd::prelude::*;
use vstd::utf8::{decode_utf8, encode_utf8, valid_utf8};

verus! {

/// What `String::from_utf8_lossy` yields for a byte sequence: the decoded
/// characters, with every maximal invalid subsequence replaced.
pub uninterp spec fn lossy_utf8(bytes: Seq<u8>) -> Seq<char>;

/// Relies on `String::from_utf8_lossy`: valid UTF-8 decodes exactly, and no
/// decoded character consumes less than one byte.
#[verifier::external_body]
pub fn utf8_to_chars_lossy(bytes: &[u8]) -> (r: Vec<char>)
    ensures
        r@ == lossy_utf8(bytes@),
        valid_utf8(bytes@) ==> r@ == decode_utf8(bytes@),
        r@.len() <= bytes@.len(),
{
    String::from_utf8_lossy(bytes).chars().collect()
}

/// Relies on `String`'s UTF-8 representation: collecting characters into a
/// `String` and taking its bytes is exactly UTF-8 encoding.
#[verifier::external_body]
pub fn chars_to_utf8(chars: &Vec<char>) -> (r: Vec<u8>)
    ensures
        r@ == encode_utf8(chars@),
{
    chars.iter().collect::<String>().into_bytes()
}

/// What `unicode_width::UnicodeWidthChar::width` yields for a character:
/// its displayed width in columns, or `None` for a control character.
pub uninterp spec fn display_width(c: char) -> Option<usize>;

/// Relies on `unicode_width::UnicodeWidthChar::width`: printable ASCII is one
/// column wide, control characters below `' '` have no width, and a width
/// never exceeds one byte's range.
#[verifier::external_body]
pub fn char_width(c: char) -> (r: Option<usize>)
    ensures
        r == display_width(c),
        0x20 <= (c as u32) && (c as u32) < 0x7f ==> r == Some(1usize),
        (c as u32) < 0x20 ==> r is None,
        r matches Some(w) ==> w <= 255,
{
    unicode_width::UnicodeWidthChar::width(c)
}

/// The column width a character takes up when rendered: control characters
/// count as one column, as the watcher displays them one cell wide.
pub open spec fn col_width(c: char) -> nat {
    match display_width(c) {
        Some(w) => w as nat,
        None => 1,
    }
}

/// The rendered width of `c`, executable counterpart of [`col_width`].
pub fn char_col_width(c: char) -> (r: usize)
    ensures
        r == col_width(c),
        r <= 255,
{
    match char_width(c) {
        Some(w) => w,
        None => 1,
    }
}

/// What `char::is_whitespace` yields: whether the character has the Unicode
/// `White_Space` property.
pub uninterp spec fn is_white(c: char) -> bool;

/// Relies on `char::is_whitespace`: blank ASCII characters are white space
/// and printable ASCII characters other than the space are not.
#[verifier::external_body]
pub fn char_is_whitespace(c: char) -> (r: bool)
    ensures
        r == is_white(c),
        c == ' ' || c == '\t' || c == '\n' || c == '\r' ==> r,
        0x21 <= (c as u32) && (c as u32) < 0x7f ==> !r,
{
    c.is_whitespace()
}

/// Relies on `str::chars`: the characters of a string slice, in order, which
/// is the slice's view.
#[verifier::external_body]
pub fn str_to_chars(s: &str) -> (r: Vec<char>)
    ensures
        r@ == s@,
{
    s.chars().collect()
}

/// Relies on `String`'s `FromIterator`: collecting characters yields the
/// string whose view they are.
#[verifier::external_body]
pub fn chars_to_string(chars: &Vec<char>) -> (r: String)
    ensures
        r@ == chars@,
{
    chars.iter().collect()
}

} // verus!
