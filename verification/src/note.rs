//! Notes, their byte encoding, and the digests published for them.
//!
//! A note is the private record of spendable value.  The ledger never sees a
//! note: it sees the note's commitment when the note is created and the
//! note's nullifier when it is spent.

use vstd::prelude::*;
use crate::digest::{sha256, sha256_digest};
use crate::error::ZkLedgerError;
use crate::hexcode::{from_hex, hex_bytes, hex_text, is_hex_text, to_hex};
use crate::wire::{
    be64, from_be64, lemma_be64_read_back, lemma_be64_write_back, push_be64, push_bytes, read_be64,
    read_bytes32,
};

verus! {

/// The digest that stands on the ledger for a note.
pub type Commitment = [u8; 32];

/// The digest that marks a note as spent.
pub type Nullifier = [u8; 32];

/// First byte of every note encoding.
pub const NOTE_FORMAT: u8 = 1;

/// First byte of every nullifier preimage.
pub const NULLIFIER_FORMAT: u8 = 2;

/// Length of a note encoding: format byte, value, owner tag, blinding.
pub const NOTE_LEN: usize = 73;

/// Spendable value bound to an owner.  `blinding` is secret randomness that
/// hides the other two fields behind the commitment.
#[derive(Clone, Copy, Debug, PartialEq, Eq)]
pub struct Note {
    pub value: u64,
    pub owner_tag: [u8; 32],
    pub blinding: [u8; 32],
}

/// The encoding of a note: the format byte, the value as eight big-endian
/// bytes, the owner tag, the blinding.
pub open spec fn note_bytes(n: Note) -> Seq<u8> {
    seq![NOTE_FORMAT] + be64(n.value) + n.owner_tag@ + n.blinding@
}

/// Bytes that encode some note: the right length, the format byte, and a
/// value that is not zero.
pub open spec fn is_note_encoding(bytes: Seq<u8>) -> bool {
    bytes.len() == NOTE_LEN && bytes[0] == NOTE_FORMAT && from_be64(bytes.subrange(1, 9)) > 0
}

/// The commitment of a note: the SHA-256 digest of its encoding.
pub open spec fn note_commitment(n: Note) -> Seq<u8> {
    sha256(note_bytes(n))
}

/// What is hashed into a nullifier: the format byte, the spending key, the
/// commitment.
pub open spec fn nullifier_bytes(spending_key: Seq<u8>, commitment: Seq<u8>) -> Seq<u8> {
    seq![NULLIFIER_FORMAT] + spending_key + commitment
}

/// The nullifier of a note under a spending key.
pub open spec fn note_nullifier(n: Note, spending_key: Seq<u8>) -> Seq<u8> {
    sha256(nullifier_bytes(spending_key, note_commitment(n)))
}

/// The encoding of a note is recognised as one exactly if the note holds a
/// positive value, and its fields stand at fixed places.
pub proof fn lemma_note_bytes_shape(n: Note)
    ensures
        is_note_encoding(note_bytes(n)) <==> n.value > 0,
        note_bytes(n).subrange(1, 9) == be64(n.value),
        note_bytes(n).subrange(9, 41) == n.owner_tag@,
        note_bytes(n).subrange(41, 73) == n.blinding@,
{
    lemma_be64_read_back(n.value);
}

/// Two notes with the same encoding are the same note.
pub proof fn lemma_note_bytes_injective(a: Note, b: Note)
    requires
        note_bytes(a) == note_bytes(b),
    ensures
        a == b,
{
    lemma_note_bytes_shape(a);
    lemma_be64_read_back(a.value);
    lemma_be64_read_back(b.value);
    assert(a.owner_tag =~= b.owner_tag);
    assert(a.blinding =~= b.blinding);
}

/// Any bytes recognised as a note encoding are the encoding of the note whose
/// fields they spell.
pub proof fn lemma_note_bytes_surjective(bytes: Seq<u8>, n: Note)
    requires
        is_note_encoding(bytes),
        n.value == from_be64(bytes.subrange(1, 9)),
        n.owner_tag@ == bytes.subrange(9, 41),
        n.blinding@ == bytes.subrange(41, 73),
    ensures
        note_bytes(n) == bytes,
{
    lemma_be64_write_back(bytes.subrange(1, 9));
}

/// Two nullifier preimages agree only if key and commitment agree.
pub proof fn lemma_nullifier_bytes_injective(
    key_a: Seq<u8>,
    commitment_a: Seq<u8>,
    key_b: Seq<u8>,
    commitment_b: Seq<u8>,
)
    requires
        key_a.len() == key_b.len(),
        nullifier_bytes(key_a, commitment_a) == nullifier_bytes(key_b, commitment_b),
    ensures
        key_a == key_b,
        commitment_a == commitment_b,
{
    let a = nullifier_bytes(key_a, commitment_a);
    let k = key_a.len() as int;
    assert(a.subrange(1, 1 + k) =~= key_a);
    assert(a.subrange(1 + k, a.len() as int) =~= commitment_a);
}

/// A commitment binds its note: two notes with the same commitment are the
/// same note, or their encodings are two different byte strings with the same
/// SHA-256 digest.
pub proof fn lemma_commitment_binds_note(a: Note, b: Note)
    requires
        note_commitment(a) == note_commitment(b),
    ensures
        a == b || (note_bytes(a) != note_bytes(b) && sha256(note_bytes(a)) == sha256(
            note_bytes(b),
        )),
{
    if note_bytes(a) == note_bytes(b) {
        lemma_note_bytes_injective(a, b);
    }
}

/// A nullifier binds key and commitment: if two commitments under two keys of
/// equal length have the same nullifier, then keys and commitments agree, or
/// the two preimages are different byte strings with the same SHA-256 digest.
pub proof fn lemma_nullifier_binds_key_and_commitment(
    key_a: Seq<u8>,
    commitment_a: Seq<u8>,
    key_b: Seq<u8>,
    commitment_b: Seq<u8>,
)
    requires
        key_a.len() == key_b.len(),
        sha256(nullifier_bytes(key_a, commitment_a)) == sha256(
            nullifier_bytes(key_b, commitment_b),
        ),
    ensures
        (key_a == key_b && commitment_a == commitment_b) || nullifier_bytes(key_a, commitment_a)
            != nullifier_bytes(key_b, commitment_b),
{
    if nullifier_bytes(key_a, commitment_a) == nullifier_bytes(key_b, commitment_b) {
        lemma_nullifier_bytes_injective(key_a, commitment_a, key_b, commitment_b);
    }
}

/// Encodes a note.
pub fn encode(note: &Note) -> (bytes: Vec<u8>)
    ensures
        bytes@ == note_bytes(*note),
{
    let mut out: Vec<u8> = Vec::with_capacity(NOTE_LEN);
    out.push(NOTE_FORMAT);
    push_be64(&mut out, note.value);
    push_bytes(&mut out, &note.owner_tag);
    push_bytes(&mut out, &note.blinding);
    out
}

/// Decodes a note.  Succeeds exactly on the bytes that `encode` produces for
/// a note of positive value, and then returns the one note that they encode.
/// A note of value zero is no note: its encoding is refused.
pub fn decode(bytes: &[u8]) -> (r: Result<Note, ZkLedgerError>)
    ensures
        r is Ok <==> is_note_encoding(bytes@),
        r matches Ok(n) ==> note_bytes(n) == bytes@ && n.value > 0,
        r matches Err(e) ==> e is DecodeError,
{
    if bytes.len() != NOTE_LEN {
        return Err(ZkLedgerError::DecodeError);
    }
    if bytes[0] != NOTE_FORMAT {
        return Err(ZkLedgerError::DecodeError);
    }
    let value = read_be64(bytes, 1);
    if value == 0 {
        return Err(ZkLedgerError::DecodeError);
    }
    let note = Note { value, owner_tag: read_bytes32(bytes, 9), blinding: read_bytes32(bytes, 41) };
    proof {
        lemma_note_bytes_surjective(bytes@, note);
    }
    Ok(note)
}

/// A note as hexadecimal text: the text of its encoding.
pub fn note_to_hex(note: &Note) -> (text: String)
    ensures
        text@ == hex_text(note_bytes(*note)),
{
    let bytes = encode(note);
    to_hex(bytes.as_slice())
}

/// Reads a note from the hexadecimal text of its encoding.  Succeeds exactly
/// on text that stands for the encoding of a note.
pub fn note_from_hex(text: &str) -> (r: Result<Note, ZkLedgerError>)
    ensures
        r is Ok <==> is_hex_text(text@) && is_note_encoding(hex_bytes(text@)),
        r matches Ok(n) ==> note_bytes(n) == hex_bytes(text@),
        r matches Err(e) ==> e is DecodeError,
{
    match from_hex(text) {
        Some(bytes) => decode(bytes.as_slice()),
        None => Err(ZkLedgerError::DecodeError),
    }
}

/// The commitment of a note.
pub fn commitment_of(note: &Note) -> (c: Commitment)
    ensures
        c@ == note_commitment(*note),
{
    let bytes = encode(note);
    sha256_digest(bytes.as_slice())
}

/// The bytes that are hashed into the nullifier of commitment `c` under a
/// spending key.
pub fn nullifier_preimage(c: &Commitment, spending_key: &[u8; 32]) -> (bytes: Vec<u8>)
    ensures
        bytes@ == nullifier_bytes(spending_key@, c@),
{
    let mut pre: Vec<u8> = Vec::with_capacity(65);
    pre.push(NULLIFIER_FORMAT);
    push_bytes(&mut pre, spending_key);
    push_bytes(&mut pre, c);
    pre
}

/// The nullifier that commitment `c` has under a spending key.
pub fn nullifier_for(c: &Commitment, spending_key: &[u8; 32]) -> (nf: Nullifier)
    ensures
        nf@ == sha256(nullifier_bytes(spending_key@, c@)),
{
    let pre = nullifier_preimage(c, spending_key);
    sha256_digest(pre.as_slice())
}

/// The nullifier of a note under a spending key.  The same note and key
/// always give the same nullifier.
pub fn nullifier_of(note: &Note, spending_key: &[u8; 32]) -> (nf: Nullifier)
    ensures
        nf@ == note_nullifier(*note, spending_key@),
{
    let c = commitment_of(note);
    nullifier_for(&c, spending_key)
}

} // verus!
