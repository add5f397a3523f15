//! The bytes of files.

use vstd::prelude::*;
use vstd::string::*;

verus! {

/// Why `String::from_utf8` refuses bytes, in its own words.
pub uninterp spec fn decoding_error(bytes: Seq<u8>) -> Seq<char>;

/// `String::from_utf8`: bytes that are valid UTF-8 are decoded; of others the error is taken
/// as text, which depends on the bytes alone.
#[verifier::external_body]
pub(crate) fn decode(bytes: Vec<u8>) -> (r: Result<String, String>)
    ensures
        match r {
            Ok(s) => vstd::utf8::valid_utf8(bytes@) && s@ == vstd::utf8::decode_utf8(bytes@),
            Err(e) => !vstd::utf8::valid_utf8(bytes@) && e@ == decoding_error(bytes@),
        },
{
    String::from_utf8(bytes).map_err(|e| e.to_string())
}

/// The text that bytes are the encoding of.
pub open spec fn decoded(bytes: Seq<u8>) -> Option<Seq<char>> {
    if vstd::utf8::valid_utf8(bytes) {
        Some(vstd::utf8::decode_utf8(bytes))
    } else {
        None
    }
}

/// The encoding of a text.
pub open spec fn encoded(s: Seq<char>) -> Seq<u8> {
    vstd::utf8::encode_utf8(s)
}

/// What is encoded can be decoded again.
pub proof fn law_decode_of_encode(s: Seq<char>)
    ensures
        decoded(encoded(s)) == Some(s),
{
    vstd::utf8::encode_utf8_valid_utf8(s);
    vstd::utf8::encode_utf8_decode_utf8(s);
}

/// The encoding of a text.
pub fn encode(s: &str) -> (r: Vec<u8>)
    ensures
        r@ == encoded(s@),
{
    vstd::slice::slice_to_vec(s.as_bytes())
}

/// A copy of the bytes.
pub fn copy_bytes(v: &Vec<u8>) -> (r: Vec<u8>)
    ensures
        r@ == v@,
{
    vstd::slice::slice_to_vec(v.as_slice())
}

/// How many bytes of a file are looked at to tell whether it is binary.
pub const BINARY_CHECK: usize = 8192;

/// Whether a file looks binary: a zero is among its first bytes.
pub open spec fn binary(bytes: Seq<u8>) -> bool {
    exists|i: int| 0 <= i < bytes.len() && i < BINARY_CHECK && #[trigger] bytes[i] == 0
}

/// Whether a file looks binary.
pub fn is_binary(bytes: &Vec<u8>) -> (r: bool)
    ensures
        r == binary(bytes@),
{
    let mut i: usize = 0;
    while i < bytes.len() && i < BINARY_CHECK
        invariant
            0 <= i <= bytes@.len(),
            i <= BINARY_CHECK,
            forall|j: int| 0 <= j < i ==> #[trigger] bytes@[j] != 0,
        decreases bytes@.len() - i,
    {
        if bytes[i] == 0 {
            return true;
        }
        i += 1;
    }
    false
}

} // verus!
