//! Bytes as base64 text, the form in which they travel in JSON.

use base64::engine::general_purpose::STANDARD;
use base64::Engine;
use vstd::prelude::*;

verus! {

/// `bytes` in base64 with the standard alphabet and padding.
pub uninterp spec fn base64_text(bytes: Seq<u8>) -> Seq<char>;

/// What reading a text as base64 gives: the bytes, or the message of the
/// error.
pub uninterp spec fn base64_reading(text: Seq<char>) -> Result<Seq<u8>, Seq<char>>;

/// `base64::Engine::encode` of the standard engine writes a text that depends
/// on the bytes alone, and that reads back as them. It cannot size the text for
/// inputs near the limit of a machine word.
#[verifier::external_body]
fn standard_encode(bytes: &[u8]) -> (r: String)
    requires
        bytes@.len() <= usize::MAX / 4,
    ensures
        r@ == base64_text(bytes@),
        base64_reading(r@) is Ok,
        base64_reading(r@)->Ok_0 == bytes@,
{
    STANDARD.encode(bytes)
}

/// `base64::Engine::decode` of the standard engine reads or refuses a text;
/// which bytes it reads, or what its error says, depends on the text alone.
#[verifier::external_body]
fn standard_decode(text: &str) -> (r: Result<Vec<u8>, String>)
    ensures
        r is Ok <==> base64_reading(text@) is Ok,
        r matches Ok(bytes) ==> bytes@ == base64_reading(text@)->Ok_0,
        r matches Err(message) ==> message@ == base64_reading(text@)->Err_0,
{
    STANDARD.decode(text).map_err(|e| e.to_string())
}

/// Writes bytes as base64. The text reads back as the same bytes.
pub fn encode(bytes: &[u8]) -> (r: String)
    requires
        bytes@.len() <= usize::MAX / 4,
    ensures
        r@ == base64_text(bytes@),
        base64_reading(r@) == Ok::<Seq<u8>, Seq<char>>(bytes@),
{
    standard_encode(bytes)
}

/// Reads base64 as bytes.
pub fn decode(text: &str) -> (r: Result<Vec<u8>, String>)
    ensures
        r is Ok <==> base64_reading(text@) is Ok,
        r matches Ok(bytes) ==> base64_reading(text@) == Ok::<Seq<u8>, Seq<char>>(bytes@),
        r matches Err(message) ==> base64_reading(text@) == Err::<Seq<u8>, Seq<char>>(message@),
{
    standard_decode(text)
}

} // verus!
