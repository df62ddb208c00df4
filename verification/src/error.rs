//! The failures that the ledger reports.

use vstd::prelude::*;

verus! {

/// Every way in which an operation on wallets or the ledger can fail.  A
/// failed operation leaves the ledger exactly as it was.
#[derive(Debug, PartialEq, Eq)]
pub enum ZkLedgerError {
    /// No wallet is registered under this name.
    WalletNotFound(String),
    /// A wallet is already registered under this name.
    WalletExists(String),
    /// The unspent notes of the wallet do not cover the amount.
    InsufficientBalance,
    /// A transaction's proof does not match its nullifiers and commitments.
    InvalidProof,
    /// A nullifier is already published, or occurs twice in one transaction.
    NoteAlreadySpent,
    /// A commitment is already published, or occurs twice in one transaction.
    DuplicateCommitment,
    /// An amount is zero, or inputs and outputs do not balance.
    InvalidAmount,
    /// A key is not 32 bytes, or not hexadecimal text for 32 bytes.
    InvalidKeyFormat,
    /// Bytes do not encode a note, or a snapshot does not describe a ledger.
    DecodeError,
    /// The unspent notes of a wallet add up to more than a `u64` can hold.
    AmountOverflow,
}

/// The message of an error, for people.
pub open spec fn message_text(e: ZkLedgerError) -> Seq<char> {
    match e {
        ZkLedgerError::WalletNotFound(name) => "Wallet not found: "@ + name@,
        ZkLedgerError::WalletExists(name) => "Wallet '"@ + name@ + "' already exists"@,
        ZkLedgerError::InsufficientBalance => "Insufficient balance"@,
        ZkLedgerError::InvalidProof => "Invalid proof"@,
        ZkLedgerError::NoteAlreadySpent => "Note already spent"@,
        ZkLedgerError::DuplicateCommitment => "Commitment already published"@,
        ZkLedgerError::InvalidAmount => "Invalid amount"@,
        ZkLedgerError::InvalidKeyFormat => "Invalid key format"@,
        ZkLedgerError::DecodeError => "Malformed data"@,
        ZkLedgerError::AmountOverflow => "Amount overflow"@,
    }
}

/// Appends text to a string with `String::push_str`.
///
/// Trusted: afterwards the string holds what it held before, followed by
/// the appended text.
#[verifier::external_body]
fn append_text(text: &mut String, more: &str)
    ensures
        final(text)@ == old(text)@ + more@,
{
    text.push_str(more)
}

impl ZkLedgerError {
    /// The message of this error, for people.
    pub fn message(&self) -> (text: String)
        ensures
            text@ == message_text(*self),
    {
        match self {
            ZkLedgerError::WalletNotFound(name) => {
                let mut text = "Wallet not found: ".to_owned();
                append_text(&mut text, name.as_str());
                text
            },
            ZkLedgerError::WalletExists(name) => {
                let mut text = "Wallet '".to_owned();
                append_text(&mut text, name.as_str());
                append_text(&mut text, "' already exists");
                text
            },
            ZkLedgerError::InsufficientBalance => "Insufficient balance".to_owned(),
            ZkLedgerError::InvalidProof => "Invalid proof".to_owned(),
            ZkLedgerError::NoteAlreadySpent => "Note already spent".to_owned(),
            ZkLedgerError::DuplicateCommitment => "Commitment already published".to_owned(),
            ZkLedgerError::InvalidAmount => "Invalid amount".to_owned(),
            ZkLedgerError::InvalidKeyFormat => "Invalid key format".to_owned(),
            ZkLedgerError::DecodeError => "Malformed data".to_owned(),
            ZkLedgerError::AmountOverflow => "Amount overflow".to_owned(),
        }
    }
}

} // verus!
