//! Account identifiers: the 32 bytes of a public key, written in base58.

use vstd::prelude::*;
use solana_sdk::pubkey::Pubkey;
use std::str::FromStr;
use crate::base58::{base58_decoded, base58_encoded};
use crate::text::same_text;

verus! {

/// Bytes in an account identifier.
pub const ACCOUNT_ID_BYTES: usize = 32;

/// The longest text that can write an account identifier.
pub const MAX_ACCOUNT_TEXT_LEN: usize = 44;

/// The identifier of an account on the ledger.
#[derive(Clone, Copy, Debug, PartialEq, Eq, Hash)]
pub struct AccountId {
    bytes: [u8; 32],
}

/// The bytes that `Pubkey::from_str` reads from `text`: `text` is at most 44
/// characters long and is base58 for exactly 32 bytes.
pub open spec fn pubkey_bytes_of(text: Seq<char>) -> Option<Seq<u8>> {
    match base58_decoded(text) {
        Some(bytes) => if text.len() <= MAX_ACCOUNT_TEXT_LEN && bytes.len() == ACCOUNT_ID_BYTES {
            Some(bytes)
        } else {
            None
        },
        None => None,
    }
}

/// The bytes of the account that `text` names: the 32 bytes that are read
/// from `text` and that are written as `text` again.
pub open spec fn account_bytes_of(text: Seq<char>) -> Option<Seq<u8>> {
    match pubkey_bytes_of(text) {
        Some(bytes) => if base58_encoded(bytes) == text {
            Some(bytes)
        } else {
            None
        },
        None => None,
    }
}

/// The text that names an account is the text of that account, and the
/// account has 32 bytes.
pub proof fn lemma_account_text(text: Seq<char>)
    requires
        account_bytes_of(text) is Some,
    ensures
        base58_encoded(account_bytes_of(text)->0) == text,
        base58_decoded(text) == account_bytes_of(text),
        account_bytes_of(text)->0.len() == ACCOUNT_ID_BYTES,
{
}

/// Calls `Pubkey::from_str`. Not verified: the contract restates the
/// function's source. It refuses text of more than 44 bytes, decodes the rest
/// with `bs58`, and accepts exactly 32 decoded bytes. Text that decodes is
/// ASCII, so its length in bytes is its length in characters.
#[verifier::external_body]
fn pubkey_from_str(text: &str) -> (bytes: Option<[u8; 32]>)
    ensures
        match bytes {
            Some(found) => pubkey_bytes_of(text@) == Some(found@),
            None => pubkey_bytes_of(text@) is None,
        },
{
    match Pubkey::from_str(text) {
        Ok(key) => Some(key.to_bytes()),
        Err(_) => None,
    }
}

/// Calls `to_string` on the `Pubkey` of these bytes. Not verified: by its
/// source the text is what `bs58` encodes the 32 bytes to.
#[verifier::external_body]
fn pubkey_to_string(bytes: &[u8; 32]) -> (text: String)
    ensures
        text@ == base58_encoded(bytes@),
{
    Pubkey::new_from_array(*bytes).to_string()
}

impl View for AccountId {
    type V = Seq<u8>;

    closed spec fn view(&self) -> Seq<u8> {
        self.bytes@
    }
}

impl AccountId {
    /// The identifier with these bytes.
    pub fn from_bytes(bytes: [u8; 32]) -> (id: AccountId)
        ensures
            id@ == bytes@,
    {
        AccountId { bytes }
    }

    /// The bytes of the identifier.
    pub fn to_bytes(&self) -> (bytes: [u8; 32])
        ensures
            bytes@ == self@,
    {
        self.bytes
    }

    /// Reads an identifier from its base58 text, and checks it by writing it
    /// again. `Some` exactly where the text names an account.
    pub fn parse(text: &str) -> (id: Option<AccountId>)
        ensures
            match id {
                Some(found) => account_bytes_of(text@) == Some(found@),
                None => account_bytes_of(text@) is None,
            },
    {
        match pubkey_from_str(text) {
            Some(bytes) => {
                let id = AccountId { bytes };
                let written = id.to_text();
                id.keep_if_written_as(text, written.as_str())
            },
            None => None,
        }
    }

    /// Keeps an identifier that was read from `text` only if it was written
    /// back as `text`: the identifier where `written` and `text` are the
    /// same, else `None`.
    pub fn keep_if_written_as(self, text: &str, written: &str) -> (kept: Option<AccountId>)
        ensures
            kept == (if written@ == text@ {
                Some(self)
            } else {
                None
            }),
    {
        if same_text(written, text) {
            Some(self)
        } else {
            None
        }
    }

    /// The base58 text of the identifier, which labels its gauge.
    pub fn to_text(&self) -> (text: String)
        ensures
            text@ == base58_encoded(self@),
    {
        pubkey_to_string(&self.bytes)
    }

    /// Whether two identifiers hold the same bytes.
    pub fn same_as(&self, other: &AccountId) -> (same: bool)
        ensures
            same == (self@ == other@),
    {
        let mut i: usize = 0;
        while i < 32
            invariant
                0 <= i <= 32,
                forall|j: int| 0 <= j < i ==> self@[j] == other@[j],
            decreases 32 - i,
        {
            if self.bytes[i] != other.bytes[i] {
                return false;
            }
            i += 1;
        }
        assert(self@ =~= other@);
        true
    }
}

} // verus!
