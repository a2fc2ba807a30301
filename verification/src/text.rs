//! Conversions between byte buffers and Rust text types.
//!
//! Identifier content is modelled throughout the crate as a sequence of
//! bytes; these functions move such bytes across the `String`/`&str`
//! boundary. Their contracts speak only about ASCII content, which is all
//! the identifier encoding ever produces.

use vstd::prelude::*;

verus! {

use vstd::utf8::is_ascii_chars;

/// Relies on `String::from_utf8_lossy`: bytes that are valid UTF-8 come back
/// as exactly that text, and ASCII bytes (below 128) are valid UTF-8, one
/// character per byte.
#[verifier::external_body]
pub fn string_of_bytes(b: &[u8]) -> (r: String)
    ensures
        (forall|i: int| 0 <= i < b@.len() ==> #[trigger] b@[i] < 128) ==> {
            &&& r@.len() == b@.len()
            &&& is_ascii_chars(r@)
            &&& forall|i: int| 0 <= i < r@.len() ==> #[trigger] r@[i] as u8 == b@[i]
        },
{
    String::from_utf8_lossy(b).into_owned()
}

/// Relies on `core::str::from_utf8`: ASCII bytes (below 128) are valid UTF-8
/// and decode to themselves, one character per byte. On bytes that are not
/// valid UTF-8 the empty string stands in.
#[verifier::external_body]
pub fn str_of_bytes<'a>(b: &'a [u8]) -> (r: &'a str)
    ensures
        (forall|i: int| 0 <= i < b@.len() ==> #[trigger] b@[i] < 128) ==> {
            &&& r@.len() == b@.len()
            &&& is_ascii_chars(r@)
            &&& forall|i: int| 0 <= i < r@.len() ==> #[trigger] r@[i] as u8 == b@[i]
        },
{
    match core::str::from_utf8(b) {
        Ok(s) => s,
        Err(_) => "",
    }
}

/// Relies on `String::from_iter` over a sequence of characters: the resulting
/// text holds exactly the characters handed in, in order.
#[verifier::external_body]
pub fn string_of_chars(v: Vec<char>) -> (r: String)
    ensures
        r@ == v@,
{
    String::from_iter(v)
}

} // verus!
