use base64::Engine;
use vstd::prelude::*;

verus! {

/// The standard base64 text (standard alphabet, with padding) of some bytes.
pub uninterp spec fn base64_of(b: Seq<u8>) -> Seq<char>;

/// The bytes that a standard base64 text stands for; `None` where the text is
/// not valid standard base64.
pub uninterp spec fn base64_decode_of(s: Seq<char>) -> Option<Seq<u8>>;

/// Relies on base64's `STANDARD` engine `encode`: standard alphabet with
/// padding, and decoding the text gives the bytes back.
#[verifier::external_body]
pub(crate) fn encode_base64(b: &[u8]) -> (r: String)
    requires
        b@.len() <= usize::MAX / 2,
    ensures
        r@ == base64_of(b@),
        base64_decode_of(r@) == Some(b@),
{
    base64::engine::general_purpose::STANDARD.encode(b)
}

/// Relies on base64's `STANDARD` engine `decode`, and on the error's
/// `Display` for the message.
#[verifier::external_body]
pub(crate) fn decode_base64(s: &str) -> (r: Result<Vec<u8>, String>)
    ensures
        r is Ok <==> base64_decode_of(s@) is Some,
        r matches Ok(v) ==> base64_decode_of(s@) == Some(v@),
{
    match base64::engine::general_purpose::STANDARD.decode(s) {
        Ok(v) => Ok(v),
        Err(e) => Err(e.to_string()),
    }
}

/// Relies on `std::str::from_utf8`: it accepts exactly valid UTF-8, and on
/// the error's `Display` for the message.
#[verifier::external_body]
pub(crate) fn decode_utf8_bytes(b: &[u8]) -> (r: Result<String, String>)
    ensures
        r is Ok <==> vstd::utf8::valid_utf8(b@),
        r matches Ok(s) ==> s@ == vstd::utf8::decode_utf8(b@),
{
    match std::str::from_utf8(b) {
        Ok(s) => Ok(s.to_string()),
        Err(e) => Err(e.to_string()),
    }
}

} // verus!
