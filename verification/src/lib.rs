//! A private-balance payment ledger.
//!
//! Wallets hold value as secret notes.  The shared ledger publishes only a
//! commitment for every note and a nullifier for every spent note, so an
//! observer learns neither amounts nor owners.  Every function here carries a
//! contract over mathematical views of the data, and the contracts are
//! machine-checked.
//!
//! The modules, leaves first:
//!
//! - [`digest`], [`hexcode`], [`wire`], [`random`]: SHA-256, hexadecimal
//!   text, byte-level encodings, fresh randomness.
//! - [`keys`]: wallets and the derivation of the public tag.
//! - [`note`]: notes, their encoding, commitments and nullifiers.
//! - [`circuit`]: the transfer statement, `prove` and `verify`.
//! - [`ledger`]: the append-only ledger and the admission of transactions.
//! - [`select`]: which notes a transfer spends.
//! - [`scanner`]: which notes a wallet can still spend, and its balance.
//! - [`processor`]: preparing and committing transfers.
//! - [`manager`]: named wallets around one ledger.
//! - [`accounting`]: how minting and transfers move balances.

pub mod accounting;
pub mod circuit;
pub mod digest;
pub mod error;
pub mod hexcode;
pub mod keys;
pub mod ledger;
pub mod manager;
pub mod note;
pub mod processor;
mod random;
pub mod scanner;
pub mod select;
pub mod wire;

pub use circuit::{prove, verify, Opening, SpendInput, TransferProof};
pub use error::ZkLedgerError;
pub use keys::{generate_wallet, Wallet};
pub use ledger::{Ledger, Transaction};
pub use manager::WalletManager;
pub use note::{commitment_of, decode, encode, nullifier_of, Commitment, Note, Nullifier};
pub use processor::{prepare_transfer, transfer, transfer_with};
pub use scanner::{balance, scan};
pub use select::select_notes;
