use zkpay::error::ZkLedgerError;
use zkpay::hexcode::to_hex;
use zkpay::keys::{public_tag_of, Wallet};
use zkpay::ledger::{Ledger, Transaction};
use sha2::{Digest, Sha256};
use zkpay::circuit::{
    commitments_of, nullifiers_of, statement_preimage, Opening, SpendInput, TransferProof,
};
use zkpay::processor::prepare_transfer;
use zkpay::manager::{distinct_names, BalanceReport, WalletEntry, WalletManager};
use zkpay::note::{commitment_of, Note};

fn two_wallets() -> WalletManager {
    let mut m = WalletManager::new();
    m.create_wallet_with("w", [1; 32], [2; 32]).unwrap();
    m.create_wallet_with("x", [3; 32], [4; 32]).unwrap();
    m
}

fn listing(m: &WalletManager) -> (Vec<String>, Vec<String>, usize) {
    let l = m.view_ledger();
    (l.commitments, l.nullifiers, l.transactions)
}

#[test]
fn balance_follows_mints_and_a_transfer() {
    let mut m = WalletManager::new();
    m.create_wallet("w").unwrap();
    m.create_wallet("x").unwrap();
    m.mint("w", 100).unwrap();
    m.mint("w", 50).unwrap();
    assert_eq!(m.check_balance("w"), Ok(BalanceReport { notes: 2, balance: 150 }));
    m.transfer("w", "x", 70).unwrap();
    assert_eq!(m.check_balance("w"), Ok(BalanceReport { notes: 2, balance: 80 }));
    assert_eq!(m.check_balance("x"), Ok(BalanceReport { notes: 1, balance: 70 }));
}

#[test]
fn a_new_manager_is_empty() {
    let m = WalletManager::new();
    assert!(m.wallets().is_empty());
    assert!(m.vault().is_empty());
    assert!(m.ledger().commitments().is_empty());
    assert_eq!(listing(&m), (vec![], vec![], 0));
}

#[test]
fn create_wallet_registers_the_wallet() {
    let mut m = WalletManager::new();
    let w = m.create_wallet_with("alice", [1; 32], [2; 32]).unwrap();
    assert_eq!(w, Wallet::from_keys([1; 32], [2; 32]));
    assert_eq!(m.wallet("alice"), Some(w));
    assert_eq!(m.wallet("bob"), None);
    assert_eq!(m.wallets().len(), 1);
    assert_eq!(m.wallets()[0].name, "alice");
}

#[test]
fn create_wallet_draws_fresh_keys() {
    let mut m = WalletManager::new();
    let a = m.create_wallet("a").unwrap();
    let b = m.create_wallet("b").unwrap();
    assert_ne!(a.spending_key(), b.spending_key());
    assert_eq!(a.public_tag(), public_tag_of(&a.spending_key()));
    assert_eq!(m.wallet("a"), Some(a));
    assert_eq!(m.wallet("b"), Some(b));
}

#[test]
fn create_wallet_refuses_a_name_in_use() {
    let mut m = WalletManager::new();
    let first = m.create_wallet("alice").unwrap();
    assert_eq!(
        m.create_wallet("alice"),
        Err(ZkLedgerError::WalletExists("alice".to_string()))
    );
    assert_eq!(
        m.create_wallet_with("alice", [9; 32], [9; 32]),
        Err(ZkLedgerError::WalletExists("alice".to_string()))
    );
    assert_eq!(m.wallets().len(), 1);
    assert_eq!(m.wallet("alice"), Some(first));
}

#[test]
fn mint_publishes_a_commitment_and_keeps_the_note() {
    let mut m = two_wallets();
    let owned = m.mint_with("w", 5, [7; 32]).unwrap();
    let note = Note { value: 5, owner_tag: public_tag_of(&[1; 32]), blinding: [7; 32] };
    assert_eq!(owned.note, note);
    assert_eq!(owned.commitment, commitment_of(&note));
    assert_eq!(owned.position, 0);
    assert_eq!(m.vault(), &vec![note]);
    assert_eq!(m.ledger().commitments(), &vec![commitment_of(&note)]);
    assert!(m.ledger().nullifiers().is_empty());
    let second = m.mint_with("x", 6, [8; 32]).unwrap();
    assert_eq!(second.position, 1);
}

#[test]
fn mint_refuses_an_unknown_wallet() {
    let mut m = two_wallets();
    assert_eq!(
        m.mint("nobody", 5),
        Err(ZkLedgerError::WalletNotFound("nobody".to_string()))
    );
    assert_eq!(listing(&m), (vec![], vec![], 0));
}

#[test]
fn mint_refuses_amount_zero() {
    let mut m = two_wallets();
    assert_eq!(m.mint("w", 0), Err(ZkLedgerError::InvalidAmount));
    assert_eq!(listing(&m), (vec![], vec![], 0));
    assert!(m.vault().is_empty());
}

#[test]
fn the_wallet_is_looked_up_before_the_amount() {
    let mut m = two_wallets();
    assert_eq!(
        m.mint("nobody", 0),
        Err(ZkLedgerError::WalletNotFound("nobody".to_string()))
    );
}

#[test]
fn mint_refuses_the_same_note_twice() {
    let mut m = two_wallets();
    m.mint_with("w", 5, [7; 32]).unwrap();
    let before = listing(&m);
    assert_eq!(m.mint_with("w", 5, [7; 32]), Err(ZkLedgerError::DuplicateCommitment));
    assert_eq!(listing(&m), before);
    assert_eq!(m.vault().len(), 1);
    assert!(m.mint_with("w", 5, [8; 32]).is_ok());
}

#[test]
fn check_balance_refuses_an_unknown_wallet() {
    let m = two_wallets();
    assert_eq!(
        m.check_balance("nobody"),
        Err(ZkLedgerError::WalletNotFound("nobody".to_string()))
    );
}

#[test]
fn balance_of_a_fresh_wallet_is_zero() {
    let m = two_wallets();
    assert_eq!(m.check_balance("w"), Ok(BalanceReport { notes: 0, balance: 0 }));
}

#[test]
fn check_balance_reports_an_overflow() {
    let mut m = two_wallets();
    m.mint("w", u64::MAX).unwrap();
    assert_eq!(m.check_balance("w"), Ok(BalanceReport { notes: 1, balance: u64::MAX }));
    m.mint("w", 1).unwrap();
    assert_eq!(m.check_balance("w"), Err(ZkLedgerError::AmountOverflow));
}

#[test]
fn transfer_moves_value_and_records_the_transaction() {
    let mut m = two_wallets();
    m.mint_with("w", 100, [7; 32]).unwrap();
    m.mint_with("w", 50, [8; 32]).unwrap();
    let receipt = m.transfer_with("w", "x", 70, [0xa0; 32], [0xa1; 32]).unwrap();
    assert_eq!(receipt.sent.value, 70);
    assert_eq!(receipt.sent.owner_tag, public_tag_of(&[3; 32]));
    assert_eq!(receipt.change.unwrap().value, 30);
    assert_eq!(receipt.change.unwrap().owner_tag, public_tag_of(&[1; 32]));
    assert_eq!(receipt.spent.len(), 1);
    assert_eq!(receipt.spent[0].note.value, 100);
    assert_eq!(m.vault().len(), 4);
    assert_eq!(m.vault()[2], receipt.sent);
    assert_eq!(m.vault()[3], receipt.change.unwrap());
    let l = m.view_ledger();
    assert_eq!(l.commitments.len(), 4);
    assert_eq!(l.nullifiers.len(), 1);
    assert_eq!(l.transactions, 1);
    assert_eq!(m.check_balance("w").unwrap().balance, 80);
    assert_eq!(m.check_balance("x").unwrap().balance, 70);
}

#[test]
fn transfer_to_oneself_keeps_the_balance() {
    let mut m = two_wallets();
    m.mint("w", 100).unwrap();
    m.transfer("w", "w", 40).unwrap();
    assert_eq!(m.check_balance("w"), Ok(BalanceReport { notes: 2, balance: 100 }));
}

#[test]
fn received_value_can_be_sent_on() {
    let mut m = two_wallets();
    m.create_wallet("y").unwrap();
    m.mint("w", 100).unwrap();
    m.transfer("w", "x", 60).unwrap();
    m.transfer("x", "y", 25).unwrap();
    assert_eq!(m.check_balance("w").unwrap().balance, 40);
    assert_eq!(m.check_balance("x").unwrap().balance, 35);
    assert_eq!(m.check_balance("y").unwrap().balance, 25);
    assert_eq!(m.view_ledger().transactions, 2);
}

#[test]
fn transfer_beyond_the_balance_changes_nothing() {
    let mut m = two_wallets();
    m.mint("w", 10).unwrap();
    let before = listing(&m);
    assert_eq!(m.transfer("w", "x", 11).unwrap_err(), ZkLedgerError::InsufficientBalance);
    assert_eq!(listing(&m), before);
    assert_eq!(m.vault().len(), 1);
    assert_eq!(m.check_balance("w").unwrap().balance, 10);
}

#[test]
fn transfer_refuses_unknown_wallets_and_amount_zero() {
    let mut m = two_wallets();
    m.mint("w", 10).unwrap();
    assert_eq!(
        m.transfer("nobody", "x", 1).unwrap_err(),
        ZkLedgerError::WalletNotFound("nobody".to_string())
    );
    assert_eq!(
        m.transfer("w", "nobody", 1).unwrap_err(),
        ZkLedgerError::WalletNotFound("nobody".to_string())
    );
    assert_eq!(
        m.transfer("nobody", "nowhere", 1).unwrap_err(),
        ZkLedgerError::WalletNotFound("nobody".to_string())
    );
    assert_eq!(m.transfer("w", "x", 0).unwrap_err(), ZkLedgerError::InvalidAmount);
    assert_eq!(m.view_ledger().transactions, 0);
}

#[test]
fn a_note_is_spent_once() {
    let mut m = two_wallets();
    m.mint("w", 100).unwrap();
    m.transfer("w", "x", 100).unwrap();
    let before = listing(&m);
    assert_eq!(m.transfer("w", "x", 1).unwrap_err(), ZkLedgerError::InsufficientBalance);
    assert_eq!(listing(&m), before);
    let nullifiers = m.ledger().nullifiers().clone();
    let mut unique = nullifiers.clone();
    unique.sort();
    unique.dedup();
    assert_eq!(unique.len(), nullifiers.len());
}

#[test]
fn view_ledger_lists_digests_as_text() {
    let mut m = two_wallets();
    let a = m.mint_with("w", 100, [7; 32]).unwrap();
    m.transfer_with("w", "x", 100, [0xa0; 32], [0xa1; 32]).unwrap();
    let l = m.view_ledger();
    assert_eq!(l.commitments.len(), 2);
    assert_eq!(l.commitments[0], to_hex(&a.commitment));
    assert_eq!(l.commitments[1], to_hex(&m.ledger().commitments()[1]));
    assert_eq!(l.nullifiers, vec![to_hex(&m.ledger().nullifiers()[0])]);
    assert_eq!(l.transactions, 1);
    assert!(l.commitments.iter().all(|c| c.len() == 64));
}

fn copy_transactions(l: &Ledger) -> Vec<Transaction> {
    l.transactions()
        .iter()
        .map(|t| Transaction {
            proof: TransferProof { bytes: t.proof.bytes.clone() },
            input_nullifiers: t.input_nullifiers.clone(),
            output_commitments: t.output_commitments.clone(),
        })
        .collect()
}

fn copy_openings(m: &WalletManager) -> Vec<Opening> {
    m.openings()
        .iter()
        .map(|o| Opening {
            inputs: o
                .inputs
                .iter()
                .map(|i| SpendInput { note: i.note, spending_key: i.spending_key.clone() })
                .collect(),
            outputs: o.outputs.clone(),
        })
        .collect()
}

fn copy_entries(m: &WalletManager) -> Vec<WalletEntry> {
    m.wallets().iter().map(|e| WalletEntry { name: e.name.clone(), wallet: e.wallet }).collect()
}

fn restored(m: &WalletManager, vault: Vec<Note>) -> Result<WalletManager, ZkLedgerError> {
    WalletManager::restore(
        copy_entries(m),
        m.ledger().commitments().clone(),
        m.ledger().nullifiers().clone(),
        copy_transactions(m.ledger()),
        vault,
        copy_openings(m),
    )
}

#[test]
fn a_manager_is_restored_from_what_it_held() {
    let mut m = two_wallets();
    m.mint("w", 100).unwrap();
    m.transfer("w", "x", 70).unwrap();
    let mut back = restored(&m, m.vault().clone()).unwrap();
    assert_eq!(back.check_balance("w"), m.check_balance("w"));
    assert_eq!(back.check_balance("x"), m.check_balance("x"));
    assert_eq!(listing(&back), listing(&m));
    assert_eq!(back.openings().len(), 1);
    back.transfer("x", "w", 70).unwrap();
    assert_eq!(back.check_balance("w").unwrap().balance, 100);
}

#[test]
fn restore_refuses_a_name_used_twice() {
    let m = two_wallets();
    let mut entries = copy_entries(&m);
    entries.push(WalletEntry { name: "w".to_string(), wallet: Wallet::from_keys([5; 32], [6; 32]) });
    let r = WalletManager::restore(entries, vec![], vec![], vec![], vec![], vec![]);
    assert_eq!(r.unwrap_err(), ZkLedgerError::DecodeError);
}

#[test]
fn restore_refuses_notes_that_do_not_match_the_ledger() {
    let mut m = two_wallets();
    m.mint("w", 100).unwrap();
    m.mint("x", 50).unwrap();
    let notes = m.vault().clone();
    assert!(restored(&m, notes.clone()).is_ok());
    let missing = vec![notes[0]];
    assert_eq!(restored(&m, missing).unwrap_err(), ZkLedgerError::DecodeError);
    let swapped = vec![notes[1], notes[0]];
    assert_eq!(restored(&m, swapped).unwrap_err(), ZkLedgerError::DecodeError);
    let altered = vec![notes[0], Note { value: 51, ..notes[1] }];
    assert_eq!(restored(&m, altered).unwrap_err(), ZkLedgerError::DecodeError);
    let extra = vec![notes[0], notes[1], notes[1]];
    assert_eq!(restored(&m, extra).unwrap_err(), ZkLedgerError::DecodeError);
}

#[test]
fn restore_refuses_a_note_of_value_zero() {
    let m = two_wallets();
    let empty = Note { value: 0, owner_tag: public_tag_of(&[1; 32]), blinding: [7; 32] };
    let r = WalletManager::restore(
        copy_entries(&m),
        vec![commitment_of(&empty)],
        vec![],
        vec![],
        vec![empty],
        vec![],
    );
    assert_eq!(r.unwrap_err(), ZkLedgerError::DecodeError);
    let full = Note { value: 1, ..empty };
    let r = WalletManager::restore(
        copy_entries(&m),
        vec![commitment_of(&full)],
        vec![],
        vec![],
        vec![full],
        vec![],
    );
    assert!(r.is_ok());
}

#[test]
fn manager_restore_refuses_a_transaction_without_its_opening() {
    let mut m = two_wallets();
    m.mint("w", 100).unwrap();
    m.transfer("w", "x", 70).unwrap();
    let r = WalletManager::restore(
        copy_entries(&m),
        m.ledger().commitments().clone(),
        m.ledger().nullifiers().clone(),
        copy_transactions(m.ledger()),
        m.vault().clone(),
        vec![],
    );
    assert_eq!(r.unwrap_err(), ZkLedgerError::DecodeError);
}

/// A transaction that spends `spent` under the key of `w` and creates `made`,
/// with the digest of its public part in the place of the proof.
fn forged(w: &Wallet, spent: &[Note], made: &[Note]) -> (Transaction, Opening) {
    let opening = Opening {
        inputs: spent
            .iter()
            .map(|n| SpendInput { note: *n, spending_key: w.spending_key().to_vec() })
            .collect(),
        outputs: made.to_vec(),
    };
    let input_nullifiers = nullifiers_of(&opening.inputs).unwrap();
    let output_commitments = commitments_of(&opening.outputs);
    let digest = Sha256::digest(statement_preimage(&input_nullifiers, &output_commitments));
    let tx = Transaction {
        proof: TransferProof { bytes: digest.to_vec() },
        input_nullifiers,
        output_commitments,
    };
    (tx, opening)
}

#[test]
fn a_transaction_that_does_not_conserve_value_is_not_listed() {
    let mut m = two_wallets();
    let held = m.mint("w", 100).unwrap().note;
    let w = m.wallet("w").unwrap();
    let x = m.wallet("x").unwrap();
    let out0 = listing(&m);
    let inflated = Note { value: 1000, owner_tag: x.public_tag(), blinding: [9; 32] };
    let (tx, opening) = forged(&w, &[held], &[inflated]);
    assert_eq!(m.submit(tx, opening), Err(ZkLedgerError::InvalidProof));
    assert_eq!(listing(&m), out0);
    let honest = Note { value: 100, owner_tag: x.public_tag(), blinding: [9; 32] };
    let (tx, _) = forged(&w, &[held], &[inflated]);
    let (_, balanced) = forged(&w, &[held], &[honest]);
    assert_eq!(m.submit(tx, balanced), Err(ZkLedgerError::InvalidProof));
    assert_eq!(listing(&m), out0);
    assert_eq!(m.vault().len(), 1);
    assert_eq!(m.check_balance("w").unwrap().balance, 100);
    assert_eq!(m.check_balance("x").unwrap().balance, 0);
    let restored_with_it = WalletManager::restore(
        copy_entries(&m),
        vec![commitment_of(&held), commitment_of(&inflated)],
        nullifiers_of(&forged(&w, &[held], &[inflated]).1.inputs).unwrap(),
        vec![forged(&w, &[held], &[inflated]).0],
        vec![held, inflated],
        vec![forged(&w, &[held], &[inflated]).1],
    );
    assert_eq!(restored_with_it.unwrap_err(), ZkLedgerError::DecodeError);
}

#[test]
fn a_prepared_transfer_can_be_submitted() {
    let mut m = two_wallets();
    m.mint("w", 100).unwrap();
    let w = m.wallet("w").unwrap();
    let x = m.wallet("x").unwrap();
    let p = prepare_transfer(m.ledger(), &w, m.vault(), &x.public_tag(), 70, [1; 32], [2; 32])
        .unwrap();
    assert_eq!(m.submit(p.transaction, p.opening), Ok(()));
    assert_eq!(m.check_balance("w").unwrap().balance, 30);
    assert_eq!(m.check_balance("x").unwrap().balance, 70);
    assert_eq!(m.vault().len(), 3);
    assert_eq!(m.openings().len(), 1);
}

#[test]
fn of_two_transfers_prepared_on_one_note_one_is_listed() {
    let mut m = two_wallets();
    m.create_wallet_with("y", [5; 32], [6; 32]).unwrap();
    m.mint("w", 100).unwrap();
    let w = m.wallet("w").unwrap();
    let x = m.wallet("x").unwrap();
    let y = m.wallet("y").unwrap();
    let (_, n, t) = listing(&m);
    let to_x = prepare_transfer(m.ledger(), &w, m.vault(), &x.public_tag(), 100, [1; 32], [2; 32])
        .unwrap();
    let to_y = prepare_transfer(m.ledger(), &w, m.vault(), &y.public_tag(), 100, [3; 32], [4; 32])
        .unwrap();
    let first = m.submit(to_x.transaction, to_x.opening);
    let second = m.submit(to_y.transaction, to_y.opening);
    assert_eq!(first, Ok(()));
    assert_eq!(second, Err(ZkLedgerError::NoteAlreadySpent));
    let (_, nullifiers, transactions) = listing(&m);
    assert_eq!(nullifiers.len(), n.len() + 1);
    assert_eq!(transactions, t + 1);
    let balance = |name: &str| m.check_balance(name).unwrap().balance;
    assert_eq!(balance("w") + balance("x") + balance("y"), 100);
    assert_eq!(balance("w"), 0);
    assert_eq!(balance("x"), 100);
    assert_eq!(balance("y"), 0);
}

#[test]
fn a_refused_reuse_moves_no_value() {
    let mut m = two_wallets();
    m.mint("w", 100).unwrap();
    let w = m.wallet("w").unwrap();
    let x = m.wallet("x").unwrap();
    let again = prepare_transfer(m.ledger(), &w, m.vault(), &x.public_tag(), 100, [3; 32], [4; 32])
        .unwrap();
    m.transfer("w", "x", 100).unwrap();
    let before = listing(&m);
    assert_eq!(m.submit(again.transaction, again.opening), Err(ZkLedgerError::NoteAlreadySpent));
    assert_eq!(listing(&m), before);
    assert_eq!(m.check_balance("w").unwrap().balance, 0);
    assert_eq!(m.check_balance("x").unwrap().balance, 100);
}

#[test]
fn a_transfer_keeps_the_total_over_all_wallets() {
    let mut m = two_wallets();
    m.create_wallet_with("y", [5; 32], [6; 32]).unwrap();
    m.mint("w", 100).unwrap();
    m.mint("x", 40).unwrap();
    m.mint("y", 7).unwrap();
    let total = |m: &WalletManager| {
        ["w", "x", "y"].iter().map(|n| m.check_balance(n).unwrap().balance).sum::<u64>()
    };
    assert_eq!(total(&m), 147);
    m.transfer("w", "x", 60).unwrap();
    assert_eq!(total(&m), 147);
    m.transfer("x", "y", 99).unwrap();
    assert_eq!(total(&m), 147);
    m.transfer("y", "y", 5).unwrap();
    assert_eq!(total(&m), 147);
    assert!(m.transfer("w", "x", 41).is_err());
    assert_eq!(total(&m), 147);
}

#[test]
fn minting_on_a_new_manager_succeeds() {
    let mut m = WalletManager::new();
    m.create_wallet("W").unwrap();
    assert!(m.mint("W", 100).is_ok());
    assert_eq!(m.ledger().commitments().len(), 1);
    assert_eq!(m.ledger().nullifiers().len(), 0);
    assert_eq!(m.ledger().transactions().len(), 0);
    assert_eq!(m.wallets().len(), 1);
}

#[test]
fn distinct_names_notices_a_repeat() {
    let w = Wallet::from_keys([5; 32], [6; 32]);
    let entry = |name: &str| WalletEntry { name: name.to_string(), wallet: w };
    assert!(distinct_names(&vec![]));
    assert!(distinct_names(&vec![entry("a"), entry("b"), entry("")]));
    assert!(!distinct_names(&vec![entry("a"), entry("b"), entry("a")]));
}
