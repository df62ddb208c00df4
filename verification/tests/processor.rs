use zkpay::circuit::{tally, verify};
use zkpay::error::ZkLedgerError;
use zkpay::keys::Wallet;
use zkpay::ledger::Ledger;
use zkpay::note::{commitment_of, nullifier_of, Note};
use zkpay::processor::{prepare_transfer, transfer, transfer_with, values_of};
use zkpay::scanner::{balance, notes_found, scan};

fn wallet(seed: u8) -> Wallet {
    Wallet::from_keys([seed; 32], [seed.wrapping_add(100); 32])
}

fn funded(w: &Wallet, values: &[u64]) -> (Ledger, Vec<Note>) {
    let mut l = Ledger::new();
    let mut notes = Vec::new();
    for (i, &value) in values.iter().enumerate() {
        let n = Note { value, owner_tag: w.public_tag(), blinding: [i as u8; 32] };
        l.publish(commitment_of(&n)).unwrap();
        notes.push(n);
    }
    (l, notes)
}

fn snapshot(l: &Ledger) -> (Vec<[u8; 32]>, Vec<[u8; 32]>, Vec<Vec<u8>>) {
    (
        l.commitments().clone(),
        l.nullifiers().clone(),
        l.transactions().iter().map(|t| t.proof.bytes.clone()).collect(),
    )
}

#[test]
fn transfer_spends_the_largest_note_and_returns_change() {
    let w = wallet(1);
    let x = wallet(2);
    let (mut l, mut notes) = funded(&w, &[100, 50]);
    let receipt =
        transfer_with(&mut l, &w, &notes, &x.public_tag(), 70, [0xa0; 32], [0xa1; 32]).unwrap();
    assert_eq!(notes_found(&receipt.spent), vec![notes[0]]);
    assert_eq!(
        receipt.sent,
        Note { value: 70, owner_tag: x.public_tag(), blinding: [0xa0; 32] }
    );
    assert_eq!(
        receipt.change,
        Some(Note { value: 30, owner_tag: w.public_tag(), blinding: [0xa1; 32] })
    );
    assert_eq!(l.nullifiers(), &vec![nullifier_of(&notes[0], &w.spending_key())]);
    assert_eq!(l.commitments().len(), 4);
    assert_eq!(l.commitments()[2], commitment_of(&receipt.sent));
    assert_eq!(l.commitments()[3], commitment_of(&receipt.change.unwrap()));
    assert_eq!(l.transactions().len(), 1);
    notes.push(receipt.sent);
    notes.push(receipt.change.unwrap());
    assert_eq!(balance(&w, &l, &notes), Some(80));
    assert_eq!(balance(&x, &l, &notes), Some(70));
}

#[test]
fn transfer_of_an_exact_total_makes_no_change_note() {
    let w = wallet(1);
    let x = wallet(2);
    let (mut l, notes) = funded(&w, &[100, 50]);
    let receipt =
        transfer_with(&mut l, &w, &notes, &x.public_tag(), 150, [0xa0; 32], [0xa1; 32]).unwrap();
    assert_eq!(receipt.change, None);
    assert_eq!(notes_found(&receipt.spent), vec![notes[0], notes[1]]);
    assert_eq!(l.commitments().len(), 3);
    assert_eq!(l.nullifiers().len(), 2);
    assert_eq!(l.transactions()[0].output_commitments.len(), 1);
}

#[test]
fn inputs_and_outputs_carry_the_same_total() {
    let w = wallet(1);
    let x = wallet(2);
    for amount in [1u64, 29, 30, 31, 99, 100, 101, 149, 150, 179, 180] {
        let (mut l, notes) = funded(&w, &[30, 100, 50]);
        let receipt =
            transfer_with(&mut l, &w, &notes, &x.public_tag(), amount, [0xa0; 32], [0xa1; 32])
                .unwrap();
        let (_, spent) = tally(&notes_found(&receipt.spent));
        let mut made = vec![receipt.sent];
        made.extend(receipt.change);
        let (positive, created) = tally(&made);
        assert!(positive);
        assert_eq!(spent, created);
        assert_eq!(receipt.sent.value, amount);
    }
}

#[test]
fn transfer_of_zero_is_refused() {
    let w = wallet(1);
    let x = wallet(2);
    let (mut l, notes) = funded(&w, &[100]);
    let before = snapshot(&l);
    let r = transfer_with(&mut l, &w, &notes, &x.public_tag(), 0, [0xa0; 32], [0xa1; 32]);
    assert_eq!(r.unwrap_err(), ZkLedgerError::InvalidAmount);
    assert_eq!(snapshot(&l), before);
}

#[test]
fn transfer_beyond_the_balance_is_refused_and_changes_nothing() {
    let w = wallet(1);
    let x = wallet(2);
    let (mut l, notes) = funded(&w, &[100, 50]);
    let before = snapshot(&l);
    let r = transfer_with(&mut l, &w, &notes, &x.public_tag(), 151, [0xa0; 32], [0xa1; 32]);
    assert_eq!(r.unwrap_err(), ZkLedgerError::InsufficientBalance);
    assert_eq!(snapshot(&l), before);
    let r = transfer(&mut l, &w, &notes, &x.public_tag(), u64::MAX);
    assert_eq!(r.unwrap_err(), ZkLedgerError::InsufficientBalance);
    assert_eq!(snapshot(&l), before);
}

#[test]
fn a_wallet_without_notes_cannot_transfer() {
    let w = wallet(1);
    let x = wallet(2);
    let (mut l, notes) = funded(&w, &[100]);
    let r = transfer_with(&mut l, &x, &notes, &w.public_tag(), 1, [0xa0; 32], [0xa1; 32]);
    assert_eq!(r.unwrap_err(), ZkLedgerError::InsufficientBalance);
}

#[test]
fn a_spent_note_cannot_be_spent_again() {
    let w = wallet(1);
    let x = wallet(2);
    let (mut l, mut notes) = funded(&w, &[100]);
    let receipt =
        transfer_with(&mut l, &w, &notes, &x.public_tag(), 100, [0xa0; 32], [0xa1; 32]).unwrap();
    notes.push(receipt.sent);
    let before = snapshot(&l);
    let r = transfer_with(&mut l, &w, &notes, &x.public_tag(), 1, [0xb0; 32], [0xb1; 32]);
    assert_eq!(r.unwrap_err(), ZkLedgerError::InsufficientBalance);
    assert_eq!(snapshot(&l), before);
}

#[test]
fn preparing_a_transfer_leaves_the_ledger_alone() {
    let w = wallet(1);
    let x = wallet(2);
    let (l, notes) = funded(&w, &[100, 50]);
    let before = snapshot(&l);
    let p = prepare_transfer(&l, &w, &notes, &x.public_tag(), 70, [0xa0; 32], [0xa1; 32])
        .unwrap();
    assert_eq!(snapshot(&l), before);
    assert_eq!(p.picks, vec![0]);
    assert_eq!(p.sent.value, 70);
    assert_eq!(p.change.unwrap().value, 30);
    assert!(verify(
        &p.transaction.proof,
        &p.transaction.input_nullifiers,
        &p.transaction.output_commitments,
        &p.opening
    ));
    assert_eq!(p.opening.outputs, vec![p.sent, p.change.unwrap()]);
    assert_eq!(p.opening.inputs.len(), 1);
    assert_eq!(p.opening.inputs[0].note, notes[0]);
    assert_eq!(p.opening.inputs[0].spending_key, w.spending_key().to_vec());
    assert_eq!(
        p.transaction.input_nullifiers,
        vec![nullifier_of(&notes[0], &w.spending_key())]
    );
    assert_eq!(
        p.transaction.output_commitments,
        vec![commitment_of(&p.sent), commitment_of(&p.change.unwrap())]
    );
}

#[test]
fn prepare_refuses_zero_and_too_much() {
    let w = wallet(1);
    let x = wallet(2);
    let (l, notes) = funded(&w, &[100, 50]);
    let r = prepare_transfer(&l, &w, &notes, &x.public_tag(), 0, [0; 32], [1; 32]);
    assert_eq!(r.unwrap_err(), ZkLedgerError::InvalidAmount);
    let r = prepare_transfer(&l, &w, &notes, &x.public_tag(), 151, [0; 32], [1; 32]);
    assert_eq!(r.unwrap_err(), ZkLedgerError::InsufficientBalance);
}

#[test]
fn a_failure_before_commit_leaves_the_ledger_as_it_was() {
    let w = wallet(1);
    let x = wallet(2);
    let (mut l, notes) = funded(&w, &[100, 50]);
    let before = snapshot(&l);
    let mut p = prepare_transfer(&l, &w, &notes, &x.public_tag(), 70, [0xa0; 32], [0xa1; 32])
        .unwrap();
    p.transaction.proof.bytes[5] ^= 0x10;
    assert_eq!(l.commit(p.transaction, &p.opening), Err(ZkLedgerError::InvalidProof));
    assert_eq!(snapshot(&l), before);
    assert_eq!(balance(&w, &l, &notes), Some(150));
}

#[test]
fn of_two_transfers_of_the_same_note_exactly_one_is_admitted() {
    let w = wallet(1);
    let x = wallet(2);
    let y = wallet(3);
    let (mut l, mut notes) = funded(&w, &[100]);
    let to_x = prepare_transfer(&l, &w, &notes, &x.public_tag(), 100, [0xa0; 32], [0xa1; 32])
        .unwrap();
    let to_y = prepare_transfer(&l, &w, &notes, &y.public_tag(), 60, [0xb0; 32], [0xb1; 32])
        .unwrap();
    assert_eq!(to_x.picks, to_y.picks);
    assert_eq!(l.commit(to_x.transaction, &to_x.opening), Ok(()));
    let after_first = snapshot(&l);
    assert_eq!(l.commit(to_y.transaction, &to_y.opening), Err(ZkLedgerError::NoteAlreadySpent));
    assert_eq!(snapshot(&l), after_first);
    notes.push(to_x.sent);
    notes.push(to_y.sent);
    notes.extend(to_y.change);
    let total = balance(&w, &l, &notes).unwrap()
        + balance(&x, &l, &notes).unwrap()
        + balance(&y, &l, &notes).unwrap();
    assert_eq!(total, 100);
    assert_eq!(balance(&x, &l, &notes), Some(100));
    assert_eq!(balance(&y, &l, &notes), Some(0));
}

#[test]
fn the_other_order_admits_the_other_transfer() {
    let w = wallet(1);
    let x = wallet(2);
    let y = wallet(3);
    let (mut l, _) = funded(&w, &[100]);
    let notes = vec![Note { value: 100, owner_tag: w.public_tag(), blinding: [0; 32] }];
    let to_x = prepare_transfer(&l, &w, &notes, &x.public_tag(), 100, [0xa0; 32], [0xa1; 32])
        .unwrap();
    let to_y = prepare_transfer(&l, &w, &notes, &y.public_tag(), 60, [0xb0; 32], [0xb1; 32])
        .unwrap();
    assert_eq!(l.commit(to_y.transaction, &to_y.opening), Ok(()));
    assert_eq!(l.commit(to_x.transaction, &to_x.opening), Err(ZkLedgerError::NoteAlreadySpent));
}

#[test]
fn a_blinding_used_before_is_refused() {
    let w = wallet(1);
    let x = wallet(2);
    let (mut l, mut notes) = funded(&w, &[10, 10]);
    let first =
        transfer_with(&mut l, &w, &notes, &x.public_tag(), 10, [0xa0; 32], [0xa1; 32]).unwrap();
    notes.push(first.sent);
    let before = snapshot(&l);
    let r = transfer_with(&mut l, &w, &notes, &x.public_tag(), 10, [0xa0; 32], [0xa1; 32]);
    assert_eq!(r.unwrap_err(), ZkLedgerError::DuplicateCommitment);
    assert_eq!(snapshot(&l), before);
}

#[test]
fn transfer_with_random_blinding_succeeds() {
    let w = wallet(1);
    let x = wallet(2);
    let (mut l, mut notes) = funded(&w, &[100, 50]);
    let receipt = transfer(&mut l, &w, &notes, &x.public_tag(), 70).unwrap();
    assert_ne!(receipt.sent.blinding, receipt.change.unwrap().blinding);
    notes.push(receipt.sent);
    notes.extend(receipt.change);
    assert_eq!(balance(&w, &l, &notes), Some(80));
    assert_eq!(balance(&x, &l, &notes), Some(70));
}

#[test]
fn transfer_can_spend_more_than_u64_in_notes() {
    let w = wallet(1);
    let x = wallet(2);
    let (mut l, notes) = funded(&w, &[u64::MAX - 1, u64::MAX - 1]);
    let receipt =
        transfer_with(&mut l, &w, &notes, &x.public_tag(), u64::MAX, [0xa0; 32], [0xa1; 32])
            .unwrap();
    assert_eq!(receipt.spent.len(), 2);
    assert_eq!(receipt.change.unwrap().value, u64::MAX - 2);
}

#[test]
fn values_of_lists_the_values_of_a_scan() {
    let w = wallet(1);
    let (l, notes) = funded(&w, &[5, 6, 7]);
    assert_eq!(values_of(&scan(&w, &l, &notes)), vec![5, 6, 7]);
}
