//! Base58 and base64 text encodings, through the `bs58` and `base64`
//! crates.

use vstd::prelude::*;

verus! {

/// What `bs58::encode(bytes).into_string()` returns (Bitcoin alphabet).
pub uninterp spec fn bs58_encoding(bytes: Seq<u8>) -> Seq<char>;

/// What `bs58::decode(text).into_vec()` returns (Bitcoin alphabet): the
/// decoded bytes, or the text (`Display`) of the decoding error.
pub uninterp spec fn bs58_decoding(text: Seq<char>) -> Result<Seq<u8>, Seq<char>>;

/// What `base64::engine::general_purpose::STANDARD.decode(text)` returns:
/// the decoded bytes, or `None` for a decoding error.
pub uninterp spec fn base64_standard_decoding(text: Seq<char>) -> Option<Seq<u8>>;

/// Whether `c` is a character of the Bitcoin base58 alphabet
/// (`123456789ABCDEFGHJKLMNPQRSTUVWXYZabcdefghijkmnopqrstuvwxyz`).
pub open spec fn is_base58_char(c: char) -> bool {
    let n = c as u32;
    ||| 49 <= n <= 57
    ||| 65 <= n <= 90 && n != 73 && n != 79
    ||| 97 <= n <= 122 && n != 108
}

/// Whether every character of `text` is in the Bitcoin base58 alphabet.
pub open spec fn is_base58_text(text: Seq<char>) -> bool {
    forall|i: int| 0 <= i < text.len() ==> is_base58_char(#[trigger] text[i])
}

/// Calls `bs58::encode(bytes).into_string()`; the result is the value named
/// `bs58_encoding(bytes)`, which depends on the bytes alone. Every
/// character written is taken from the Bitcoin alphabet (`encode_into`
/// maps each digit through it).
#[verifier::external_body]
pub(crate) fn bs58_encode(bytes: &[u8; 32]) -> (text: String)
    ensures
        text@ == bs58_encoding(bytes@),
        is_base58_text(text@),
{
    bs58::encode(bytes).into_string()
}

/// Calls `bs58::decode(text).into_vec()` and turns an error into its
/// `Display` text; the result is the value named `bs58_decoding(text)`,
/// which depends on the text alone. Base58 decoding and encoding are
/// inverse (the crate's own first example decodes a text and encodes it
/// back): bytes decoded from a text encode to that text.
#[verifier::external_body]
pub(crate) fn bs58_decode(text: &str) -> (decoded: Result<Vec<u8>, String>)
    ensures
        match decoded {
            Ok(bytes) => bs58_decoding(text@) == Ok::<Seq<u8>, Seq<char>>(bytes@),
            Err(why) => bs58_decoding(text@) == Err::<Seq<u8>, Seq<char>>(why@),
        },
        decoded matches Ok(bytes) ==> bs58_encoding(bytes@) == text@,
{
    bs58::decode(text).into_vec().map_err(|e| e.to_string())
}

/// Calls `base64::Engine::decode` with the standard engine and keeps the
/// bytes of a success; the result is the value named
/// `base64_standard_decoding(text)`, which depends on the text alone.
#[verifier::external_body]
pub(crate) fn base64_decode(text: &str) -> (decoded: Option<Vec<u8>>)
    ensures
        match decoded {
            Some(bytes) => base64_standard_decoding(text@) == Some(bytes@),
            None => base64_standard_decoding(text@) is None,
        },
{
    base64::Engine::decode(&base64::engine::general_purpose::STANDARD, text).ok()
}

/// The bytes of a base64 payload, empty when it does not decode.
pub open spec fn payload_bytes(text: Seq<char>) -> Seq<u8> {
    match base64_standard_decoding(text) {
        Some(bytes) => bytes,
        None => Seq::empty(),
    }
}

/// A payload that decodes is delivered whole: its bytes are exactly the
/// standard base64 decoding of the text, with its full length.
pub proof fn lemma_payload_is_whole_decoding(text: Seq<char>, decoded: Seq<u8>)
    requires
        base64_standard_decoding(text) == Some(decoded),
    ensures
        payload_bytes(text) == decoded,
        payload_bytes(text).len() == decoded.len(),
        forall|i: int| 0 <= i < decoded.len() ==> payload_bytes(text)[i] == decoded[i],
{
}

/// Decodes standard base64; text that does not decode gives no bytes.
pub fn decode_base64(text: &str) -> (bytes: Vec<u8>)
    ensures
        bytes@ == payload_bytes(text@),
{
    match base64_decode(text) {
        Some(bytes) => bytes,
        None => Vec::new(),
    }
}

} // verus!
