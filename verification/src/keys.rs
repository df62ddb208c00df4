//! Wallet keys: generation, derivation of the public tag, and their
//! hexadecimal text.

use vstd::prelude::*;
use crate::digest::{digest_eq, sha256, sha256_digest};
use crate::error::ZkLedgerError;
use crate::hexcode::{
    hex_bytes, hex_text, is_digest_text, lemma_hex_text_is_ascii, parse_bytes32, to_hex,
};
use crate::random::random_bytes32;

verus! {

/// The ASCII bytes of the hexadecimal text of a key.
pub open spec fn hex_ascii(key: Seq<u8>) -> Seq<u8> {
    Seq::new(hex_text(key).len(), |i: int| hex_text(key)[i] as u8)
}

/// The public tag that belongs to a spending key: the SHA-256 digest of the
/// key's hexadecimal text.  The tag can be computed from the key and not the
/// key from the tag.
pub open spec fn tag_of_key(spending_key: Seq<u8>) -> Seq<u8> {
    sha256(hex_ascii(spending_key))
}

/// Text that stands for a 32-byte key.
pub open spec fn is_key_text(text: Seq<char>) -> bool {
    is_digest_text(text)
}

/// The mathematical content of a wallet.
pub struct WalletView {
    pub spending_key: Seq<u8>,
    pub public_tag: Seq<u8>,
    pub viewing_key: Seq<u8>,
}

/// The key material of one holder.  A wallet never changes after it is made,
/// and its public tag is always the one that its spending key determines.
#[derive(Clone, Copy, Debug, PartialEq, Eq)]
pub struct Wallet {
    spending_key: [u8; 32],
    public_tag: [u8; 32],
    viewing_key: [u8; 32],
}

impl View for Wallet {
    type V = WalletView;

    closed spec fn view(&self) -> WalletView {
        WalletView {
            spending_key: self.spending_key@,
            public_tag: self.public_tag@,
            viewing_key: self.viewing_key@,
        }
    }
}

/// Derives the public tag of a spending key.
pub fn public_tag_of(spending_key: &[u8; 32]) -> (tag: [u8; 32])
    ensures
        tag@ == tag_of_key(spending_key@),
{
    let text = to_hex(spending_key);
    let digits: &str = text.as_str();
    let ascii = digits.as_bytes();
    proof {
        lemma_hex_text_is_ascii(spending_key@);
        vstd::string::is_ascii_spec_bytes(digits);
    }
    sha256_digest(ascii)
}

/// Reads a 32-byte key from hexadecimal text.
pub fn parse_key(text: &str) -> (r: Result<[u8; 32], ZkLedgerError>)
    ensures
        r is Ok <==> is_key_text(text@),
        r matches Ok(key) ==> key@ == hex_bytes(text@),
        r matches Err(e) ==> e is InvalidKeyFormat,
{
    match parse_bytes32(text) {
        Some(key) => Ok(key),
        None => Err(ZkLedgerError::InvalidKeyFormat),
    }
}

impl Wallet {
    #[verifier::type_invariant]
    spec fn tag_is_derived(self) -> bool {
        self.public_tag@ == tag_of_key(self.spending_key@)
    }

    /// Makes the wallet of a spending key and a viewing key.
    pub fn from_keys(spending_key: [u8; 32], viewing_key: [u8; 32]) -> (w: Wallet)
        ensures
            w@.spending_key == spending_key@,
            w@.public_tag == tag_of_key(spending_key@),
            w@.viewing_key == viewing_key@,
    {
        let public_tag = public_tag_of(&spending_key);
        Wallet { spending_key, public_tag, viewing_key }
    }

    /// Rebuilds a wallet from the hexadecimal text of its three keys.  Fails
    /// unless every text stands for 32 bytes and the public tag is the one
    /// that the spending key determines.
    pub fn restore(spending_key: &str, public_tag: &str, viewing_key: &str) -> (r: Result<
        Wallet,
        ZkLedgerError,
    >)
        ensures
            r is Ok <==> {
                &&& is_key_text(spending_key@)
                &&& is_key_text(public_tag@)
                &&& is_key_text(viewing_key@)
                &&& hex_bytes(public_tag@) == tag_of_key(hex_bytes(spending_key@))
            },
            r matches Ok(w) ==> {
                &&& w@.spending_key == hex_bytes(spending_key@)
                &&& w@.public_tag == hex_bytes(public_tag@)
                &&& w@.viewing_key == hex_bytes(viewing_key@)
            },
            r matches Err(e) ==> e is InvalidKeyFormat,
    {
        let sk = match parse_key(spending_key) {
            Ok(k) => k,
            Err(e) => { return Err(e); },
        };
        let tag = match parse_key(public_tag) {
            Ok(k) => k,
            Err(e) => { return Err(e); },
        };
        let vk = match parse_key(viewing_key) {
            Ok(k) => k,
            Err(e) => { return Err(e); },
        };
        let w = Wallet::from_keys(sk, vk);
        if digest_eq(&w.public_tag, &tag) {
            Ok(w)
        } else {
            Err(ZkLedgerError::InvalidKeyFormat)
        }
    }

    /// The secret that authorises spending.
    pub fn spending_key(&self) -> (key: [u8; 32])
        ensures
            key@ == self@.spending_key,
    {
        self.spending_key
    }

    /// The tag under which notes are owned.
    pub fn public_tag(&self) -> (tag: [u8; 32])
        ensures
            tag@ == self@.public_tag,
            tag@ == tag_of_key(self@.spending_key),
    {
        proof {
            use_type_invariant(self);
        }
        self.public_tag
    }

    /// The second secret, drawn independently of the spending key and kept
    /// for recognising notes without the authority to spend them.
    pub fn viewing_key(&self) -> (key: [u8; 32])
        ensures
            key@ == self@.viewing_key,
    {
        self.viewing_key
    }

    /// The spending key as hexadecimal text.
    pub fn spending_key_hex(&self) -> (text: String)
        ensures
            text@ == hex_text(self@.spending_key),
    {
        to_hex(&self.spending_key)
    }

    /// The public tag as hexadecimal text.
    pub fn public_tag_hex(&self) -> (text: String)
        ensures
            text@ == hex_text(self@.public_tag),
    {
        to_hex(&self.public_tag)
    }

    /// The viewing key as hexadecimal text.
    pub fn viewing_key_hex(&self) -> (text: String)
        ensures
            text@ == hex_text(self@.viewing_key),
    {
        to_hex(&self.viewing_key)
    }
}

/// Makes a wallet with a fresh random spending key and an independent fresh
/// random viewing key.  Whatever keys are drawn, the public tag is the one
/// that the spending key determines.
pub fn generate_wallet() -> (w: Wallet)
    ensures
        w@.public_tag == tag_of_key(w@.spending_key),
        w@.spending_key.len() == 32,
        w@.viewing_key.len() == 32,
{
    let spending_key = random_bytes32();
    let viewing_key = random_bytes32();
    Wallet::from_keys(spending_key, viewing_key)
}

} // verus!
