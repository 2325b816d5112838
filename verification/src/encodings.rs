//! Bytes that are written as texts.
use vstd::prelude::*;

verus! {

/// What `data_encoding::BASE32` decodes the bytes of a text to, or the message of its error.
pub uninterp spec fn base32_padded(text: Seq<char>) -> Result<Seq<u8>, Seq<char>>;

/// What `data_encoding::BASE32_NOPAD` decodes the bytes of a text to, or the message of its
/// error.
pub uninterp spec fn base32_unpadded(text: Seq<char>) -> Result<Seq<u8>, Seq<char>>;

pub open spec fn bytes_outcome(r: Result<Vec<u8>, String>) -> Result<Seq<u8>, Seq<char>> {
    match r {
        Ok(b) => Ok(b@),
        Err(e) => Err(e@),
    }
}

/// Calls `decode` of `data_encoding::BASE32`. What it decodes to depends on the text alone;
/// it is named and not described.
#[verifier::external_body]
pub(crate) fn decode_base32_padded(text: &str) -> (r: Result<Vec<u8>, String>)
    ensures
        bytes_outcome(r) == base32_padded(text@),
{
    data_encoding::BASE32.decode(text.as_bytes()).map_err(|e| e.to_string())
}

/// Calls `decode` of `data_encoding::BASE32_NOPAD`. What it decodes to depends on the text
/// alone; it is named and not described.
#[verifier::external_body]
pub(crate) fn decode_base32_unpadded(text: &str) -> (r: Result<Vec<u8>, String>)
    ensures
        bytes_outcome(r) == base32_unpadded(text@),
{
    data_encoding::BASE32_NOPAD.decode(text.as_bytes()).map_err(|e| e.to_string())
}

/// What `base64::engine::general_purpose::URL_SAFE_NO_PAD` decodes a text to, or the message
/// of its error.
pub uninterp spec fn base64_unpadded(text: Seq<char>) -> Result<Seq<u8>, Seq<char>>;

/// What `base64::engine::general_purpose::URL_SAFE` decodes a text to, or the message of its
/// error.
pub uninterp spec fn base64_padded(text: Seq<char>) -> Result<Seq<u8>, Seq<char>>;

/// Calls `decode` of `base64::engine::general_purpose::URL_SAFE_NO_PAD`. What it decodes to
/// depends on the text alone; it is named and not described.
#[verifier::external_body]
fn decode_base64_unpadded(text: &str) -> (r: Result<Vec<u8>, String>)
    ensures
        bytes_outcome(r) == base64_unpadded(text@),
{
    base64::Engine::decode(&base64::engine::general_purpose::URL_SAFE_NO_PAD, text).map_err(
        |e| e.to_string(),
    )
}

/// Calls `decode` of `base64::engine::general_purpose::URL_SAFE`. What it decodes to depends
/// on the text alone; it is named and not described.
#[verifier::external_body]
fn decode_base64_padded(text: &str) -> (r: Result<Vec<u8>, String>)
    ensures
        bytes_outcome(r) == base64_padded(text@),
{
    base64::Engine::decode(&base64::engine::general_purpose::URL_SAFE, text).map_err(
        |e| e.to_string(),
    )
}

/// What a text in base64 for addresses stands for, whether it is filled up or not.
pub open spec fn url_decoded(text: Seq<char>) -> Result<Seq<u8>, Seq<char>> {
    match base64_unpadded(text) {
        Ok(bytes) => Ok(bytes),
        Err(_) => base64_padded(text),
    }
}

/// What a text in base64 for addresses stands for, whether it is filled up or not.
pub fn decode_url(text: &str) -> (r: Result<Vec<u8>, String>)
    ensures
        bytes_outcome(r) == url_decoded(text@),
{
    match decode_base64_unpadded(text) {
        Ok(bytes) => Ok(bytes),
        Err(_) => decode_base64_padded(text),
    }
}

} // verus!
