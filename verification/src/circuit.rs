//! The transfer statement, the proof that binds a transaction to it, and the
//! check that admits a transaction.
//!
//! A transfer states that the published nullifiers are derived from the
//! spent notes and their keys, that the published commitments are derived
//! from the output notes, that no note is empty, and that inputs and outputs
//! carry the same total value.
//!
//! The notes and keys behind a transaction are its opening.  `prove` checks
//! the statement on the opening and issues a fixed-size proof, the SHA-256
//! digest of the encoded public part, which binds the transaction to its
//! nullifiers and commitments.  `verify` is shown the opening: it accepts
//! only if the proof is the one for the public part and the opening derives
//! that public part and balances.  So whatever `verify` accepts conserves
//! value.  The opening is shown to the verifier and never published; the
//! ledger records the proof, the nullifiers and the commitments alone.
//! Whether a key is the key of a note's owner is not decided here: the
//! scanner hands out only notes that are bound to the wallet's own tag.

use vstd::prelude::*;
use crate::digest::{all_digests, digest_eq, same_digests, sha256, sha256_digest, views};
use crate::error::ZkLedgerError;
use crate::note::{
    commitment_of, note_commitment, note_nullifier, nullifier_of, Commitment, Note, Nullifier,
};
use crate::wire::{be64, lemma_be64_read_back, push_be64, push_bytes, read_bytes32};

verus! {

/// First byte of every statement encoding.
pub const STATEMENT_FORMAT: u8 = 3;

/// Length of a proof in bytes.
pub const PROOF_LEN: usize = 32;

/// A note to be spent, with the key that is claimed to authorise it.
#[derive(Debug)]
pub struct SpendInput {
    pub note: Note,
    pub spending_key: Vec<u8>,
}

/// The private part of a transfer: the notes it spends, each with its key,
/// and the notes it creates.
#[derive(Debug)]
pub struct Opening {
    pub inputs: Vec<SpendInput>,
    pub outputs: Vec<Note>,
}

/// An opaque proof of fixed size.
#[derive(Debug)]
pub struct TransferProof {
    pub bytes: Vec<u8>,
}

impl View for TransferProof {
    type V = Seq<u8>;

    open spec fn view(&self) -> Seq<u8> {
        self.bytes@
    }
}

/// The sum of the values of a sequence of notes.
pub open spec fn total_value(notes: Seq<Note>) -> int
    decreases notes.len(),
{
    if notes.len() == 0 {
        0
    } else {
        total_value(notes.drop_last()) + notes.last().value
    }
}

/// The notes of a sequence of inputs.
pub open spec fn spent_notes(inputs: Seq<SpendInput>) -> Seq<Note> {
    inputs.map_values(|i: SpendInput| i.note)
}

/// The nullifiers that a sequence of inputs publishes.
pub open spec fn spend_nullifiers(inputs: Seq<SpendInput>) -> Seq<Seq<u8>> {
    inputs.map_values(|i: SpendInput| note_nullifier(i.note, i.spending_key@))
}

/// The commitments that a sequence of output notes publishes.
pub open spec fn output_commitments(outputs: Seq<Note>) -> Seq<Seq<u8>> {
    outputs.map_values(|n: Note| note_commitment(n))
}

/// No note is empty, and inputs and outputs carry the same total.
pub open spec fn amounts_balance(inputs: Seq<SpendInput>, outputs: Seq<Note>) -> bool {
    &&& forall|i: int| 0 <= i < inputs.len() ==> (#[trigger] inputs[i]).note.value > 0
    &&& forall|i: int| 0 <= i < outputs.len() ==> (#[trigger] outputs[i]).value > 0
    &&& total_value(spent_notes(inputs)) == total_value(outputs)
}

/// Every spending key has the length of a key.
pub open spec fn keys_well_formed(inputs: Seq<SpendInput>) -> bool {
    forall|i: int| 0 <= i < inputs.len() ==> (#[trigger] inputs[i]).spending_key@.len() == 32
}

/// The concatenation of 32-byte blocks.
pub open spec fn flat(blocks: Seq<Seq<u8>>) -> Seq<u8> {
    Seq::new(32 * blocks.len(), |i: int| blocks[i / 32][i % 32])
}

/// The encoding of the public part of a transfer: the format byte, the
/// number of nullifiers, the nullifiers, the number of commitments, the
/// commitments.  Counts are eight big-endian bytes.
pub open spec fn statement_bytes(nullifiers: Seq<Seq<u8>>, commitments: Seq<Seq<u8>>) -> Seq<u8> {
    seq![STATEMENT_FORMAT] + be64(nullifiers.len() as u64) + flat(nullifiers) + be64(
        commitments.len() as u64,
    ) + flat(commitments)
}

/// The proof that belongs to given nullifiers and commitments.
pub open spec fn statement_digest(nullifiers: Seq<Seq<u8>>, commitments: Seq<Seq<u8>>) -> Seq<u8> {
    sha256(statement_bytes(nullifiers, commitments))
}

/// The proof is the one that belongs to the nullifiers and commitments.
pub open spec fn binds(
    proof_bytes: Seq<u8>,
    nullifiers: Seq<Seq<u8>>,
    commitments: Seq<Seq<u8>>,
) -> bool {
    proof_bytes == statement_digest(nullifiers, commitments)
}

/// The notes and keys are an opening of the nullifiers and commitments: the
/// nullifiers are those of the inputs, the commitments are those of the
/// outputs, every key is 32 bytes long, no note is empty, and inputs and
/// outputs carry the same total.
pub open spec fn opens(
    nullifiers: Seq<Seq<u8>>,
    commitments: Seq<Seq<u8>>,
    inputs: Seq<SpendInput>,
    outputs: Seq<Note>,
) -> bool {
    &&& keys_well_formed(inputs)
    &&& nullifiers == spend_nullifiers(inputs)
    &&& commitments == output_commitments(outputs)
    &&& amounts_balance(inputs, outputs)
}

/// Whether `verify` accepts a proof for given nullifiers and commitments
/// when shown the given notes and keys.
pub open spec fn accepts(
    proof_bytes: Seq<u8>,
    nullifiers: Seq<Seq<u8>>,
    commitments: Seq<Seq<u8>>,
    inputs: Seq<SpendInput>,
    outputs: Seq<Note>,
) -> bool {
    binds(proof_bytes, nullifiers, commitments) && opens(nullifiers, commitments, inputs, outputs)
}

/// The nullifiers and commitments have an opening: some notes and keys
/// stand behind them, and those notes balance.
pub open spec fn conserving(nullifiers: Seq<Seq<u8>>, commitments: Seq<Seq<u8>>) -> bool {
    exists|inputs: Seq<SpendInput>, outputs: Seq<Note>|
        #[trigger] opens(nullifiers, commitments, inputs, outputs)
}

/// Conservation on acceptance: whatever `verify` accepts stands for notes that
/// balance.  Behind the nullifiers are input notes, behind the commitments
/// are output notes, none is empty, and both carry the same total value.
pub proof fn lemma_accepted_conserves(
    proof_bytes: Seq<u8>,
    nullifiers: Seq<Seq<u8>>,
    commitments: Seq<Seq<u8>>,
    inputs: Seq<SpendInput>,
    outputs: Seq<Note>,
)
    requires
        accepts(proof_bytes, nullifiers, commitments, inputs, outputs),
    ensures
        conserving(nullifiers, commitments),
        exists|spent: Seq<SpendInput>, made: Seq<Note>|
            nullifiers == #[trigger] spend_nullifiers(spent) && commitments
                == #[trigger] output_commitments(made) && amounts_balance(spent, made),
{
    assert(opens(nullifiers, commitments, inputs, outputs));
    assert(nullifiers == spend_nullifiers(inputs) && commitments == output_commitments(outputs)
        && amounts_balance(inputs, outputs));
}

/// Unequal totals are never accepted, whatever proof comes with them.
pub proof fn lemma_unbalanced_rejected(
    proof_bytes: Seq<u8>,
    nullifiers: Seq<Seq<u8>>,
    commitments: Seq<Seq<u8>>,
    inputs: Seq<SpendInput>,
    outputs: Seq<Note>,
)
    requires
        total_value(spent_notes(inputs)) != total_value(outputs),
    ensures
        !accepts(proof_bytes, nullifiers, commitments, inputs, outputs),
{
}

proof fn lemma_flat_injective(a: Seq<Seq<u8>>, b: Seq<Seq<u8>>)
    requires
        all_digests(a),
        all_digests(b),
        a.len() == b.len(),
        flat(a) == flat(b),
    ensures
        a == b,
{
    assert forall|k: int| 0 <= k < a.len() implies a[k] == b[k] by {
        assert forall|j: int| 0 <= j < 32 implies a[k][j] == b[k][j] by {
            let i = 32 * k + j;
            assert(flat(a)[i] == a[k][j]);
        }
    }
}

/// Different public statements have different encodings.
pub proof fn lemma_statement_bytes_injective(
    nullifiers_a: Seq<Seq<u8>>,
    commitments_a: Seq<Seq<u8>>,
    nullifiers_b: Seq<Seq<u8>>,
    commitments_b: Seq<Seq<u8>>,
)
    requires
        all_digests(nullifiers_a),
        all_digests(commitments_a),
        all_digests(nullifiers_b),
        all_digests(commitments_b),
        nullifiers_a.len() <= u64::MAX,
        commitments_a.len() <= u64::MAX,
        nullifiers_b.len() <= u64::MAX,
        commitments_b.len() <= u64::MAX,
        statement_bytes(nullifiers_a, commitments_a) == statement_bytes(nullifiers_b, commitments_b),
    ensures
        nullifiers_a == nullifiers_b,
        commitments_a == commitments_b,
{
    let sa = statement_bytes(nullifiers_a, commitments_a);
    let sb = statement_bytes(nullifiers_b, commitments_b);
    let na = nullifiers_a.len() as u64;
    let nb = nullifiers_b.len() as u64;
    let ca = commitments_a.len() as u64;
    let cb = commitments_b.len() as u64;
    lemma_be64_read_back(na);
    lemma_be64_read_back(nb);
    lemma_be64_read_back(ca);
    lemma_be64_read_back(cb);
    assert(sa.subrange(1, 9) =~= be64(na));
    let mid = 9 + 32 * na;
    assert(sa.subrange(9, mid) =~= flat(nullifiers_a));
    assert(sb.subrange(9, mid) =~= flat(nullifiers_b));
    lemma_flat_injective(nullifiers_a, nullifiers_b);
    assert(sa.subrange(mid + 8, mid + 8 + 32 * ca) =~= flat(commitments_a));
    assert(sb.subrange(mid + 8, mid + 8 + 32 * ca) =~= flat(commitments_b));
    lemma_flat_injective(commitments_a, commitments_b);
}

/// A proof is bound to one statement: if it belongs to two of them, they
/// are the same, or their encodings are two different byte strings with the
/// same SHA-256 digest.
pub proof fn lemma_proof_binds_statement(
    proof_bytes: Seq<u8>,
    nullifiers_a: Seq<Seq<u8>>,
    commitments_a: Seq<Seq<u8>>,
    nullifiers_b: Seq<Seq<u8>>,
    commitments_b: Seq<Seq<u8>>,
)
    requires
        all_digests(nullifiers_a),
        all_digests(commitments_a),
        all_digests(nullifiers_b),
        all_digests(commitments_b),
        nullifiers_a.len() <= u64::MAX,
        commitments_a.len() <= u64::MAX,
        nullifiers_b.len() <= u64::MAX,
        commitments_b.len() <= u64::MAX,
        binds(proof_bytes, nullifiers_a, commitments_a),
        binds(proof_bytes, nullifiers_b, commitments_b),
    ensures
        (nullifiers_a == nullifiers_b && commitments_a == commitments_b) || {
            let a = statement_bytes(nullifiers_a, commitments_a);
            let b = statement_bytes(nullifiers_b, commitments_b);
            a != b && sha256(a) == sha256(b)
        },
{
    if statement_bytes(nullifiers_a, commitments_a) == statement_bytes(
        nullifiers_b,
        commitments_b,
    ) {
        lemma_statement_bytes_injective(nullifiers_a, commitments_a, nullifiers_b, commitments_b);
    }
}

/// Only one byte string is the proof of a statement: any other is rejected,
/// whatever opening is shown with it.
pub proof fn lemma_altered_proof_rejected(
    proof_bytes: Seq<u8>,
    altered: Seq<u8>,
    nullifiers: Seq<Seq<u8>>,
    commitments: Seq<Seq<u8>>,
)
    requires
        binds(proof_bytes, nullifiers, commitments),
        altered != proof_bytes,
    ensures
        !binds(altered, nullifiers, commitments),
{
}

fn push_digests(out: &mut Vec<u8>, digests: &Vec<[u8; 32]>)
    ensures
        final(out)@ == old(out)@ + flat(views(digests@)),
{
    let mut i: usize = 0;
    while i < digests.len()
        invariant
            i <= digests@.len(),
            out@ == old(out)@ + flat(views(digests@.subrange(0, i as int))),
        decreases digests@.len() - i,
    {
        push_bytes(out, &digests[i]);
        i = i + 1;
    }
}

/// The encoding of the public part of a transfer.
pub fn statement_preimage(nullifiers: &Vec<Nullifier>, commitments: &Vec<Commitment>) -> (bytes:
    Vec<u8>)
    ensures
        bytes@ == statement_bytes(views(nullifiers@), views(commitments@)),
{
    let mut pre: Vec<u8> = Vec::new();
    pre.push(STATEMENT_FORMAT);
    push_be64(&mut pre, nullifiers.len() as u64);
    push_digests(&mut pre, nullifiers);
    push_be64(&mut pre, commitments.len() as u64);
    push_digests(&mut pre, commitments);
    pre
}

/// The digest that a proof for these nullifiers and commitments must equal.
fn expected_proof(nullifiers: &Vec<Nullifier>, commitments: &Vec<Commitment>) -> (d: [u8; 32])
    ensures
        d@ == statement_digest(views(nullifiers@), views(commitments@)),
{
    let pre = statement_preimage(nullifiers, commitments);
    sha256_digest(pre.as_slice())
}

/// Adding a note at the end adds its value to the total.
pub proof fn lemma_total_value_push(notes: Seq<Note>, n: Note)
    ensures
        total_value(notes.push(n)) == total_value(notes) + n.value,
{
    assert(notes.push(n).drop_last() =~= notes);
}

/// A total is never negative and never more than `u64::MAX` per note.
pub proof fn lemma_total_value_bounds(notes: Seq<Note>)
    ensures
        0 <= total_value(notes) <= notes.len() * u64::MAX,
    decreases notes.len(),
{
    if notes.len() > 0 {
        lemma_total_value_bounds(notes.drop_last());
    }
}

/// Adds up the values of notes, and tells whether every one is positive.
pub fn tally(notes: &Vec<Note>) -> (r: (bool, u128))
    ensures
        r.0 == (forall|i: int| 0 <= i < notes@.len() ==> (#[trigger] notes@[i]).value > 0),
        r.1 == total_value(notes@),
{
    let mut positive: bool = true;
    let mut total: u128 = 0;
    let mut i: usize = 0;
    while i < notes.len()
        invariant
            i <= notes@.len(),
            positive == (forall|j: int| 0 <= j < i ==> (#[trigger] notes@[j]).value > 0),
            total == total_value(notes@.subrange(0, i as int)),
        decreases notes@.len() - i,
    {
        let v: u64 = notes[i].value;
        proof {
            let before = notes@.subrange(0, i as int);
            lemma_total_value_bounds(before);
            lemma_total_value_push(before, notes@[i as int]);
            assert(notes@.subrange(0, i + 1) =~= before.push(notes@[i as int]));
        }
        if v == 0 {
            positive = false;
        }
        total = total + v as u128;
        i = i + 1;
    }
    proof {
        assert(notes@.subrange(0, i as int) =~= notes@);
    }
    (positive, total)
}

/// The notes that a list of inputs spends.
pub fn notes_of(inputs: &Vec<SpendInput>) -> (notes: Vec<Note>)
    ensures
        notes@ == spent_notes(inputs@),
{
    let mut notes: Vec<Note> = Vec::new();
    let mut i: usize = 0;
    while i < inputs.len()
        invariant
            i <= inputs@.len(),
            notes@ == spent_notes(inputs@.subrange(0, i as int)),
        decreases inputs@.len() - i,
    {
        notes.push(inputs[i].note);
        i = i + 1;
    }
    notes
}

/// The nullifiers that a list of inputs publishes, unless a spending key does
/// not have the length of a key.
pub fn nullifiers_of(inputs: &Vec<SpendInput>) -> (r: Option<Vec<Nullifier>>)
    ensures
        r is Some <==> keys_well_formed(inputs@),
        r matches Some(nullifiers) ==> views(nullifiers@) == spend_nullifiers(inputs@),
{
    let mut nullifiers: Vec<Nullifier> = Vec::new();
    let mut i: usize = 0;
    while i < inputs.len()
        invariant
            i <= inputs@.len(),
            nullifiers@.len() == i,
            keys_well_formed(inputs@.subrange(0, i as int)),
            views(nullifiers@) == spend_nullifiers(inputs@.subrange(0, i as int)),
        decreases inputs@.len() - i,
    {
        let input = &inputs[i];
        if input.spending_key.len() != 32 {
            return None;
        }
        let key = read_bytes32(input.spending_key.as_slice(), 0);
        proof {
            assert(input.spending_key@.subrange(0, 32) =~= input.spending_key@);
        }
        let ghost done = nullifiers@;
        nullifiers.push(nullifier_of(&input.note, &key));
        i = i + 1;
        proof {
            let target = spend_nullifiers(inputs@.subrange(0, i as int));
            assert forall|k: int| 0 <= k < i implies views(nullifiers@)[k] == target[k] by {
                if k < i - 1 {
                    assert(views(done)[k] == spend_nullifiers(inputs@.subrange(0, i - 1))[k]);
                }
            }
        }
    }
    proof {
        assert(inputs@.subrange(0, i as int) =~= inputs@);
    }
    Some(nullifiers)
}

/// The commitments that a list of output notes publishes.
pub fn commitments_of(outputs: &Vec<Note>) -> (commitments: Vec<Commitment>)
    ensures
        views(commitments@) == output_commitments(outputs@),
{
    let mut commitments: Vec<Commitment> = Vec::new();
    let mut i: usize = 0;
    while i < outputs.len()
        invariant
            i <= outputs@.len(),
            commitments@.len() == i,
            views(commitments@) == output_commitments(outputs@.subrange(0, i as int)),
        decreases outputs@.len() - i,
    {
        let ghost done = commitments@;
        commitments.push(commitment_of(&outputs[i]));
        i = i + 1;
        proof {
            let target = output_commitments(outputs@.subrange(0, i as int));
            assert forall|k: int| 0 <= k < i implies views(commitments@)[k] == target[k] by {
                if k < i - 1 {
                    assert(views(done)[k] == output_commitments(outputs@.subrange(0, i - 1))[k]);
                }
            }
        }
    }
    commitments
}

/// Whether no note is empty and inputs and outputs carry the same total.
pub fn balanced(inputs: &Vec<SpendInput>, outputs: &Vec<Note>) -> (ok: bool)
    ensures
        ok == amounts_balance(inputs@, outputs@),
{
    let spent = notes_of(inputs);
    let (inputs_positive, inputs_total) = tally(&spent);
    let (outputs_positive, outputs_total) = tally(outputs);
    proof {
        assert forall|i: int| 0 <= i < inputs@.len() implies (#[trigger] inputs@[i]).note
            == spent@[i] by {}
    }
    inputs_positive && outputs_positive && inputs_total == outputs_total
}

/// Issues the proof for a transfer that spends `inputs` and creates
/// `outputs`.
///
/// Fails with `InvalidAmount` if a note has value zero or the two totals
/// differ, and otherwise with `InvalidKeyFormat` if a spending key is not 32
/// bytes long.  The proof has the same size whatever the notes hold.
pub fn prove(inputs: &Vec<SpendInput>, outputs: &Vec<Note>) -> (r: Result<
    TransferProof,
    ZkLedgerError,
>)
    ensures
        r is Ok <==> amounts_balance(inputs@, outputs@) && keys_well_formed(inputs@),
        r matches Ok(p) ==> p@ == statement_digest(
            spend_nullifiers(inputs@),
            output_commitments(outputs@),
        ) && p@.len() == PROOF_LEN,
        r matches Err(e) ==> if amounts_balance(inputs@, outputs@) {
            e is InvalidKeyFormat
        } else {
            e is InvalidAmount
        },
{
    if !balanced(inputs, outputs) {
        return Err(ZkLedgerError::InvalidAmount);
    }
    let nullifiers = match nullifiers_of(inputs) {
        Some(n) => n,
        None => { return Err(ZkLedgerError::InvalidKeyFormat); },
    };
    let commitments = commitments_of(outputs);
    let digest = expected_proof(&nullifiers, &commitments);
    let mut bytes: Vec<u8> = Vec::with_capacity(PROOF_LEN);
    push_bytes(&mut bytes, &digest);
    Ok(TransferProof { bytes })
}

/// Whether the proof is the one that belongs to the nullifiers and
/// commitments.  The proof bytes are compared without branching on their
/// contents.
fn bound(
    given: &TransferProof,
    input_nullifiers: &Vec<Nullifier>,
    output_commitments: &Vec<Commitment>,
) -> (ok: bool)
    ensures
        ok == binds(given@, views(input_nullifiers@), views(output_commitments@)),
{
    let expected = expected_proof(input_nullifiers, output_commitments);
    if given.bytes.len() != PROOF_LEN {
        return false;
    }
    let bytes = read_bytes32(given.bytes.as_slice(), 0);
    proof {
        assert(given.bytes@.subrange(0, 32) =~= given.bytes@);
    }
    digest_eq(&bytes, &expected)
}

/// Decides whether a transaction is admitted, given its proof, its
/// nullifiers, its commitments and, shown in private, its opening.
///
/// Accepts exactly if the proof is the one that belongs to the nullifiers
/// and commitments, the nullifiers are those of the opening's inputs, the
/// commitments are those of its outputs, every key is 32 bytes long, no note
/// is empty, and inputs and outputs carry the same total.  Never fails: a
/// proof of the wrong length, an altered proof, nullifier or commitment, or
/// an opening that does not balance is simply not accepted.
pub fn verify(
    given: &TransferProof,
    input_nullifiers: &Vec<Nullifier>,
    output_commitments: &Vec<Commitment>,
    opening: &Opening,
) -> (ok: bool)
    ensures
        ok == accepts(
            given@,
            views(input_nullifiers@),
            views(output_commitments@),
            opening.inputs@,
            opening.outputs@,
        ),
{
    if !bound(given, input_nullifiers, output_commitments) {
        return false;
    }
    if !balanced(&opening.inputs, &opening.outputs) {
        return false;
    }
    let derived = match nullifiers_of(&opening.inputs) {
        Some(n) => n,
        None => { return false; },
    };
    if !same_digests(&derived, input_nullifiers) {
        return false;
    }
    let made = commitments_of(&opening.outputs);
    same_digests(&made, output_commitments)
}

} // verus!
