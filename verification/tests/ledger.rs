use sha2::{Digest, Sha256};
use zkpay::circuit::{
    commitments_of, nullifiers_of, prove, statement_preimage, Opening, SpendInput, TransferProof,
};
use zkpay::digest::same_digests;
use zkpay::error::ZkLedgerError;
use zkpay::ledger::{
    all_contained, contains_digest, disjoint_digests, distinct_digests, extend_digests, inputs_of,
    Ledger, Transaction,
};
use zkpay::note::{commitment_of, Note};

fn note(value: u64, seed: u8) -> Note {
    Note { value, owner_tag: [seed; 32], blinding: [seed.wrapping_add(1); 32] }
}

fn opening(spent: &[(u64, u8)], made: &[(u64, u8)]) -> Opening {
    Opening {
        inputs: spent
            .iter()
            .map(|&(v, s)| SpendInput { note: note(v, s), spending_key: vec![s; 32] })
            .collect(),
        outputs: made.iter().map(|&(v, s)| note(v, s)).collect(),
    }
}

fn transaction(spent: &[(u64, u8)], made: &[(u64, u8)]) -> (Transaction, Opening) {
    let o = opening(spent, made);
    let tx = Transaction {
        proof: prove(&o.inputs, &o.outputs).unwrap(),
        input_nullifiers: nullifiers_of(&o.inputs).unwrap(),
        output_commitments: commitments_of(&o.outputs),
    };
    (tx, o)
}

/// A transaction over any notes, balanced or not, with the digest of its
/// public part in the place of the proof.
fn forged(spent: &[(u64, u8)], made: &[(u64, u8)]) -> (Transaction, Opening) {
    let o = opening(spent, made);
    let input_nullifiers = nullifiers_of(&o.inputs).unwrap();
    let output_commitments = commitments_of(&o.outputs);
    let digest = Sha256::digest(statement_preimage(&input_nullifiers, &output_commitments));
    let tx = Transaction {
        proof: TransferProof { bytes: digest.to_vec() },
        input_nullifiers,
        output_commitments,
    };
    (tx, o)
}

fn commit(l: &mut Ledger, spent: &[(u64, u8)], made: &[(u64, u8)]) -> Result<(), ZkLedgerError> {
    let (tx, o) = transaction(spent, made);
    l.commit(tx, &o)
}

fn copy_of(tx: &Transaction) -> Transaction {
    Transaction {
        proof: TransferProof { bytes: tx.proof.bytes.clone() },
        input_nullifiers: tx.input_nullifiers.clone(),
        output_commitments: tx.output_commitments.clone(),
    }
}

fn snapshot(l: &Ledger) -> (Vec<[u8; 32]>, Vec<[u8; 32]>, Vec<Vec<u8>>) {
    (
        l.commitments().clone(),
        l.nullifiers().clone(),
        l.transactions().iter().map(|t| t.proof.bytes.clone()).collect(),
    )
}

#[test]
fn new_ledger_is_empty() {
    let l = Ledger::new();
    assert!(l.commitments().is_empty());
    assert!(l.nullifiers().is_empty());
    assert!(l.transactions().is_empty());
}

#[test]
fn publish_appends_a_commitment() {
    let mut l = Ledger::new();
    let a = commitment_of(&note(5, 1));
    let b = commitment_of(&note(5, 2));
    assert_eq!(l.publish(a), Ok(()));
    assert_eq!(l.publish(b), Ok(()));
    assert_eq!(l.commitments(), &vec![a, b]);
    assert!(l.is_published(&a));
    assert!(!l.is_published(&[0; 32]));
}

#[test]
fn publish_refuses_a_commitment_twice() {
    let mut l = Ledger::new();
    let a = commitment_of(&note(5, 1));
    l.publish(a).unwrap();
    let before = snapshot(&l);
    assert_eq!(l.publish(a), Err(ZkLedgerError::DuplicateCommitment));
    assert_eq!(snapshot(&l), before);
}

#[test]
fn commit_appends_nullifiers_commitments_and_record() {
    let mut l = Ledger::new();
    l.publish(commitment_of(&note(9, 1))).unwrap();
    let (tx, o) = transaction(&[(9, 1)], &[(4, 2), (5, 3)]);
    let expected = copy_of(&tx);
    assert_eq!(l.commit(tx, &o), Ok(()));
    assert_eq!(l.nullifiers(), &expected.input_nullifiers);
    assert_eq!(
        l.commitments(),
        &vec![
            commitment_of(&note(9, 1)),
            expected.output_commitments[0],
            expected.output_commitments[1]
        ]
    );
    assert_eq!(l.transactions().len(), 1);
    assert_eq!(l.transactions()[0].proof.bytes, expected.proof.bytes);
    assert!(l.is_spent(&expected.input_nullifiers[0]));
}

#[test]
fn commit_refuses_a_spent_note() {
    let mut l = Ledger::new();
    commit(&mut l, &[(9, 1)], &[(9, 2)]).unwrap();
    let before = snapshot(&l);
    assert_eq!(commit(&mut l, &[(9, 1)], &[(9, 3)]), Err(ZkLedgerError::NoteAlreadySpent));
    assert_eq!(snapshot(&l), before);
    assert_eq!(l.nullifiers().len(), 1);
}

#[test]
fn commit_refuses_a_spent_note_among_fresh_ones() {
    let mut l = Ledger::new();
    commit(&mut l, &[(9, 1)], &[(9, 2)]).unwrap();
    let before = snapshot(&l);
    assert_eq!(
        commit(&mut l, &[(1, 7), (9, 1)], &[(10, 8)]),
        Err(ZkLedgerError::NoteAlreadySpent)
    );
    assert_eq!(snapshot(&l), before);
}

#[test]
fn commit_refuses_a_note_spent_twice_in_one_transaction() {
    let mut l = Ledger::new();
    assert_eq!(
        commit(&mut l, &[(5, 1), (5, 1)], &[(10, 2)]),
        Err(ZkLedgerError::NoteAlreadySpent)
    );
    assert!(l.nullifiers().is_empty());
    assert!(l.commitments().is_empty());
    assert!(l.transactions().is_empty());
}

#[test]
fn commit_refuses_an_altered_proof() {
    let mut l = Ledger::new();
    l.publish(commitment_of(&note(9, 1))).unwrap();
    let before = snapshot(&l);
    let (mut tx, o) = transaction(&[(9, 1)], &[(9, 2)]);
    tx.proof.bytes[0] ^= 1;
    assert_eq!(l.commit(tx, &o), Err(ZkLedgerError::InvalidProof));
    assert_eq!(snapshot(&l), before);
}

#[test]
fn commit_refuses_a_proof_for_other_outputs() {
    let mut l = Ledger::new();
    let (mut tx, o) = transaction(&[(9, 1)], &[(9, 2)]);
    tx.output_commitments = commitments_of(&vec![note(900, 2)]);
    assert_eq!(l.commit(tx, &o), Err(ZkLedgerError::InvalidProof));
    assert!(l.commitments().is_empty());
}

#[test]
fn commit_refuses_a_forged_proof_over_inflated_outputs() {
    let mut l = Ledger::new();
    l.publish(commitment_of(&note(9, 1))).unwrap();
    let before = snapshot(&l);
    // Shown with the notes that stand behind it, which do not balance.
    let (tx, o) = forged(&[(9, 1)], &[(900, 2)]);
    assert_eq!(l.commit(tx, &o), Err(ZkLedgerError::InvalidProof));
    assert_eq!(snapshot(&l), before);
    // Shown with notes that balance but do not stand behind it.
    let (tx, _) = forged(&[(9, 1)], &[(900, 2)]);
    let honest = opening(&[(9, 1)], &[(9, 2)]);
    assert_eq!(l.commit(tx, &honest), Err(ZkLedgerError::InvalidProof));
    assert_eq!(snapshot(&l), before);
    // Value out of nothing, and value destroyed.
    let (tx, o) = forged(&[], &[(5, 2)]);
    assert_eq!(l.commit(tx, &o), Err(ZkLedgerError::InvalidProof));
    let (tx, o) = forged(&[(9, 1)], &[(1, 2)]);
    assert_eq!(l.commit(tx, &o), Err(ZkLedgerError::InvalidProof));
    assert_eq!(snapshot(&l), before);
}

#[test]
fn a_forged_proof_over_balanced_notes_is_the_proof() {
    let mut l = Ledger::new();
    let (tx, o) = forged(&[(9, 1)], &[(4, 2), (5, 3)]);
    assert_eq!(l.commit(tx, &o), Ok(()));
}

#[test]
fn the_proof_is_checked_before_the_nullifiers() {
    let mut l = Ledger::new();
    commit(&mut l, &[(9, 1)], &[(9, 2)]).unwrap();
    let (mut again, o) = transaction(&[(9, 1)], &[(9, 3)]);
    again.proof.bytes[31] ^= 0x80;
    assert_eq!(l.commit(again, &o), Err(ZkLedgerError::InvalidProof));
}

#[test]
fn commit_refuses_a_published_commitment() {
    let mut l = Ledger::new();
    l.publish(commitment_of(&note(9, 2))).unwrap();
    let before = snapshot(&l);
    assert_eq!(commit(&mut l, &[(9, 1)], &[(9, 2)]), Err(ZkLedgerError::DuplicateCommitment));
    assert_eq!(snapshot(&l), before);
}

#[test]
fn commit_refuses_a_commitment_twice_in_one_transaction() {
    let mut l = Ledger::new();
    assert_eq!(
        commit(&mut l, &[(10, 1)], &[(5, 2), (5, 2)]),
        Err(ZkLedgerError::DuplicateCommitment)
    );
    assert!(l.nullifiers().is_empty());
}

#[test]
fn nullifiers_are_checked_before_commitments() {
    let mut l = Ledger::new();
    commit(&mut l, &[(9, 1)], &[(9, 2)]).unwrap();
    assert_eq!(commit(&mut l, &[(9, 1)], &[(9, 2)]), Err(ZkLedgerError::NoteAlreadySpent));
}

#[test]
fn the_ledger_only_grows() {
    let mut l = Ledger::new();
    l.publish(commitment_of(&note(1, 1))).unwrap();
    let (c0, n0, t0) = snapshot(&l);
    commit(&mut l, &[(1, 1)], &[(1, 2)]).unwrap();
    let (c1, n1, t1) = snapshot(&l);
    l.publish(commitment_of(&note(3, 3))).unwrap();
    let _ = commit(&mut l, &[(1, 1)], &[(1, 9)]);
    let (c2, n2, t2) = snapshot(&l);
    assert_eq!(&c1[..c0.len()], &c0[..]);
    assert_eq!(&n1[..n0.len()], &n0[..]);
    assert_eq!(&t1[..t0.len()], &t0[..]);
    assert_eq!(&c2[..c1.len()], &c1[..]);
    assert_eq!(&n2[..n1.len()], &n1[..]);
    assert_eq!(&t2[..t1.len()], &t1[..]);
}

#[test]
fn restore_accepts_what_a_ledger_held() {
    let mut l = Ledger::new();
    l.publish(commitment_of(&note(9, 1))).unwrap();
    let (a, oa) = transaction(&[(9, 1)], &[(4, 2), (5, 3)]);
    let (b, ob) = transaction(&[(4, 2)], &[(4, 4)]);
    l.commit(a, &oa).unwrap();
    l.commit(b, &ob).unwrap();
    let transactions: Vec<Transaction> = l.transactions().iter().map(copy_of).collect();
    let back = Ledger::restore(
        l.commitments().clone(),
        l.nullifiers().clone(),
        transactions,
        &vec![oa, ob],
    )
    .unwrap();
    assert_eq!(snapshot(&back), snapshot(&l));
}

#[test]
fn restore_accepts_the_empty_ledger() {
    let l = Ledger::restore(vec![], vec![], vec![], &vec![]).unwrap();
    assert!(l.commitments().is_empty());
}

#[test]
fn restore_refuses_a_repeated_commitment() {
    let r = Ledger::restore(vec![[1; 32], [1; 32]], vec![], vec![], &vec![]);
    assert_eq!(r.unwrap_err(), ZkLedgerError::DecodeError);
}

#[test]
fn restore_refuses_a_repeated_nullifier() {
    let (tx, o) = transaction(&[(5, 1), (5, 1)], &[(10, 2)]);
    let r = Ledger::restore(
        tx.output_commitments.clone(),
        tx.input_nullifiers.clone(),
        vec![tx],
        &vec![o],
    );
    assert_eq!(r.unwrap_err(), ZkLedgerError::DecodeError);
}

#[test]
fn restore_refuses_a_nullifier_without_a_transaction() {
    let r = Ledger::restore(vec![], vec![[1; 32]], vec![], &vec![]);
    assert_eq!(r.unwrap_err(), ZkLedgerError::DecodeError);
}

#[test]
fn restore_refuses_a_transaction_without_its_nullifiers() {
    let (tx, o) = transaction(&[(9, 1)], &[(9, 2)]);
    let r = Ledger::restore(tx.output_commitments.clone(), vec![], vec![tx], &vec![o]);
    assert_eq!(r.unwrap_err(), ZkLedgerError::DecodeError);
}

#[test]
fn restore_refuses_nullifiers_out_of_order() {
    let (a, oa) = transaction(&[(9, 1)], &[(9, 2)]);
    let (b, ob) = transaction(&[(8, 3)], &[(8, 4)]);
    let commitments = vec![a.output_commitments[0], b.output_commitments[0]];
    let nullifiers = vec![b.input_nullifiers[0], a.input_nullifiers[0]];
    let r = Ledger::restore(commitments, nullifiers, vec![a, b], &vec![oa, ob]);
    assert_eq!(r.unwrap_err(), ZkLedgerError::DecodeError);
}

#[test]
fn restore_refuses_a_missing_output_commitment() {
    let (tx, o) = transaction(&[(9, 1)], &[(9, 2)]);
    let r = Ledger::restore(vec![], tx.input_nullifiers.clone(), vec![tx], &vec![o]);
    assert_eq!(r.unwrap_err(), ZkLedgerError::DecodeError);
}

#[test]
fn restore_refuses_an_altered_proof() {
    let (mut tx, o) = transaction(&[(9, 1)], &[(9, 2)]);
    tx.proof.bytes[3] ^= 4;
    let r = Ledger::restore(
        tx.output_commitments.clone(),
        tx.input_nullifiers.clone(),
        vec![tx],
        &vec![o],
    );
    assert_eq!(r.unwrap_err(), ZkLedgerError::DecodeError);
}

#[test]
fn restore_refuses_a_transaction_without_its_opening() {
    let (tx, _) = transaction(&[(9, 1)], &[(9, 2)]);
    let r = Ledger::restore(
        tx.output_commitments.clone(),
        tx.input_nullifiers.clone(),
        vec![tx],
        &vec![],
    );
    assert_eq!(r.unwrap_err(), ZkLedgerError::DecodeError);
}

#[test]
fn restore_refuses_a_forged_transaction_that_does_not_balance() {
    let (tx, o) = forged(&[(9, 1)], &[(900, 2)]);
    let r = Ledger::restore(
        tx.output_commitments.clone(),
        tx.input_nullifiers.clone(),
        vec![tx],
        &vec![o],
    );
    assert_eq!(r.unwrap_err(), ZkLedgerError::DecodeError);
    let (tx, _) = forged(&[(9, 1)], &[(900, 2)]);
    let r = Ledger::restore(
        tx.output_commitments.clone(),
        tx.input_nullifiers.clone(),
        vec![tx],
        &vec![opening(&[(9, 1)], &[(9, 2)])],
    );
    assert_eq!(r.unwrap_err(), ZkLedgerError::DecodeError);
}

#[test]
fn digest_list_helpers() {
    let a = [1u8; 32];
    let b = [2u8; 32];
    let c = [3u8; 32];
    assert!(contains_digest(&vec![a, b], &b));
    assert!(!contains_digest(&vec![a, b], &c));
    assert!(!contains_digest(&vec![], &c));
    assert!(disjoint_digests(&vec![a], &vec![b, c]));
    assert!(!disjoint_digests(&vec![a, c], &vec![b, c]));
    assert!(disjoint_digests(&vec![], &vec![]));
    assert!(distinct_digests(&vec![a, b, c]));
    assert!(!distinct_digests(&vec![a, b, a]));
    assert!(!distinct_digests(&vec![a, b, b]));
    assert!(distinct_digests(&vec![]));
    assert!(same_digests(&vec![a, b], &vec![a, b]));
    assert!(!same_digests(&vec![a, b], &vec![b, a]));
    assert!(!same_digests(&vec![a], &vec![a, b]));
    assert!(all_contained(&vec![a, a], &vec![b, a]));
    assert!(!all_contained(&vec![a, c], &vec![b, a]));
    assert!(all_contained(&vec![], &vec![]));
    let mut list = vec![a];
    extend_digests(&mut list, &vec![b, c]);
    assert_eq!(list, vec![a, b, c]);
}

#[test]
fn inputs_of_concatenates_in_order() {
    let (a, _) = transaction(&[(9, 1), (1, 5)], &[(10, 2)]);
    let (b, _) = transaction(&[(8, 3)], &[(8, 4)]);
    let expected =
        vec![a.input_nullifiers[0], a.input_nullifiers[1], b.input_nullifiers[0]];
    assert_eq!(inputs_of(&vec![a, b]), expected);
    assert_eq!(inputs_of(&vec![]), Vec::<[u8; 32]>::new());
}
