//! Text fields: UTF-8 bytes in, strings out.
use vstd::prelude::*;
use vstd::utf8::{valid_utf8, decode_utf8, encode_utf8};

verus! {

/// `String::from_utf8`: gives back the string that `bytes` encode, or
/// nothing when they are not valid UTF-8. The contract claims that std's
/// notion of valid UTF-8 is vstd's `valid_utf8` and that the string's
/// characters are the decoded scalars.
#[verifier::external_body]
pub(crate) fn string_from_utf8(bytes: Vec<u8>) -> (r: Option<String>)
    ensures
        r is Some <==> valid_utf8(bytes@),
        r matches Some(s) ==> s@ == decode_utf8(bytes@),
{
    String::from_utf8(bytes).ok()
}

/// The UTF-8 bytes of a string.
pub fn string_bytes(s: &String) -> (r: &[u8])
    ensures
        r@ == encode_utf8(s@),
{
    s.as_str().as_bytes()
}

/// The characters of `bytes` when they are valid UTF-8.
pub open spec fn text_of(bytes: Seq<u8>) -> Option<Seq<char>> {
    if valid_utf8(bytes) {
        Some(decode_utf8(bytes))
    } else {
        None
    }
}

/// Decoding the bytes of a text gives back the text.
pub proof fn lemma_text_roundtrip(chars: Seq<char>)
    ensures
        text_of(encode_utf8(chars)) == Some(chars),
{
    vstd::utf8::encode_utf8_valid_utf8(chars);
    vstd::utf8::encode_utf8_decode_utf8(chars);
}

} // verus!
