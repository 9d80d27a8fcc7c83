//! Base58 text, as the `bs58` crate reads and writes it.
//!
//! The codec itself is not verified here. Its two directions are named by
//! `base58_decoded` and `base58_encoded`, and every contract that depends on
//! the codec is stated over those two names.

use vstd::prelude::*;
use crate::text::same_text;

verus! {

/// The bytes that `bs58::decode(text).into_vec()` yields in the default
/// alphabet, or `None` where it reports an error.
pub uninterp spec fn base58_decoded(text: Seq<char>) -> Option<Seq<u8>>;

/// The text that `bs58::encode(bytes).into_string()` yields in the default
/// alphabet.
pub uninterp spec fn base58_encoded(bytes: Seq<u8>) -> Seq<char>;

/// Calls `bs58::decode(text).into_vec()`. Not verified: the contract claims
/// only that the outcome is the one named `base58_decoded`, that is, that it
/// depends on nothing but the characters of `text`. An error of the decoder
/// comes back as `None`.
#[verifier::external_body]
fn decode(text: &str) -> (bytes: Option<Vec<u8>>)
    ensures
        match bytes {
            Some(found) => base58_decoded(text@) == Some(found@),
            None => base58_decoded(text@) is None,
        },
{
    bs58::decode(text).into_vec().ok()
}

/// Calls `bs58::encode(bytes).into_string()`. Not verified: the contract
/// claims only that the text is the one named `base58_encoded`, that is, that
/// it depends on nothing but `bytes`.
#[verifier::external_body]
fn encode(bytes: &Vec<u8>) -> (text: String)
    ensures
        text@ == base58_encoded(bytes@),
{
    bs58::encode(bytes).into_string()
}

/// Whether `text` is base58 in canonical form: it decodes, and encoding the
/// decoded bytes gives `text` back.
pub open spec fn is_canonical(text: Seq<char>) -> bool {
    base58_decoded(text) matches Some(bytes) && base58_encoded(bytes) == text
}

/// The bytes that canonical base58 text stands for.
pub open spec fn canonical_bytes(text: Seq<char>) -> Option<Seq<u8>> {
    if is_canonical(text) {
        base58_decoded(text)
    } else {
        None
    }
}

/// Keeps decoded bytes only if they were written back as the text they came
/// from: `bytes` where `written` and `text` are the same, else `None`.
pub fn keep_if_round_trip(text: &str, bytes: Vec<u8>, written: &str) -> (kept: Option<Vec<u8>>)
    ensures
        match kept {
            Some(found) => found@ == bytes@ && written@ == text@,
            None => written@ != text@,
        },
{
    if same_text(written, text) {
        Some(bytes)
    } else {
        None
    }
}

/// Decodes base58 text and checks the result by encoding it again.
/// `Some` exactly for canonical text, with the bytes it stands for.
pub fn decode_canonical(text: &str) -> (bytes: Option<Vec<u8>>)
    ensures
        match bytes {
            Some(found) => canonical_bytes(text@) == Some(found@),
            None => canonical_bytes(text@) is None,
        },
{
    match decode(text) {
        Some(found) => {
            let written = encode(&found);
            keep_if_round_trip(text, found, written.as_str())
        },
        None => None,
    }
}

} // verus!
