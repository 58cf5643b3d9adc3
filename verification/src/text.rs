//! Building strings.

use vstd::prelude::*;

verus! {

/// `String::push`: appends the character to the end of the string.
#[verifier::external_body]
pub(crate) fn push_char(s: &mut String, c: char)
    ensures
        final(s)@ == old(s)@.push(c),
{
    s.push(c);
}


/// All bytes are ASCII.
pub open spec fn is_ascii_bytes(b: Seq<u8>) -> bool {
    forall|i: int| 0 <= i < b.len() ==> #[trigger] b[i] < 128
}

/// The characters of ASCII bytes.
pub open spec fn ascii_chars(b: Seq<u8>) -> Seq<char> {
    b.map_values(|c: u8| c as char)
}

/// `String::from_utf8_lossy`, as an owned string: the text the bytes encode.
/// For ASCII bytes that is the string of their characters, which is all that is
/// stated here; other bytes are decoded as UTF-8, with U+FFFD for each invalid
/// sequence.
#[verifier::external_body]
pub(crate) fn string_from_bytes(b: &[u8]) -> (r: String)
    ensures
        is_ascii_bytes(b@) ==> r@ == ascii_chars(b@),
{
    String::from_utf8_lossy(b).into_owned()
}

} // verus!
