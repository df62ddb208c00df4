//! Building and admitting transfers.
//!
//! A transfer is prepared against a ledger without touching it: the notes to
//! spend are selected, the output notes are made, and the proof is issued.
//! The prepared transfer holds the transaction to publish and the opening to
//! show with it.  Only `commit` writes, and it writes all or nothing.
//! Whoever prepares a transfer and then drops it has changed nothing.

use vstd::prelude::*;
use crate::circuit::{
    accepts, commitments_of, lemma_total_value_push, notes_of, nullifiers_of, output_commitments,
    prove, statement_digest, tally, total_value, Opening, SpendInput,
};
use crate::error::ZkLedgerError;
use crate::keys::{Wallet, WalletView};
use crate::ledger::{commit_outcome, extends, Ledger, LedgerView, Transaction, TransactionView};
use crate::note::{note_nullifier, Note};
use crate::random::random_bytes32;
use crate::scanner::{
    balance_of, commitments_match, found_notes, owned_views, scan, spendable, OwnedNote,
};
use crate::select::{covers, picked_total, precedes, prefix_sum, select_notes, sum};
use crate::wire::push_bytes;

verus! {

/// A transfer that is ready to be committed.
#[derive(Debug)]
pub struct PreparedTransfer {
    /// What is published if the transfer is committed.
    pub transaction: Transaction,
    /// What is shown to the ledger with the transaction, and not published.
    pub opening: Opening,
    /// The positions taken in the wallet's list of spendable notes.
    pub picks: Vec<usize>,
    /// The notes that the transfer spends, in the order taken.
    pub spent: Vec<OwnedNote>,
    /// The note made for the recipient.
    pub sent: Note,
    /// The note that returns the remainder to the sender, if there is one.
    pub change: Option<Note>,
}

/// The mathematical content of a prepared transfer.
pub struct PreparedView {
    pub transaction: TransactionView,
    pub inputs: Seq<SpendInput>,
    pub outputs: Seq<Note>,
    pub picks: Seq<usize>,
    pub spent: Seq<(Note, int)>,
    pub sent: Note,
    pub change: Option<Note>,
}

impl View for PreparedTransfer {
    type V = PreparedView;

    open spec fn view(&self) -> PreparedView {
        PreparedView {
            transaction: self.transaction@,
            inputs: self.opening.inputs@,
            outputs: self.opening.outputs@,
            picks: self.picks@,
            spent: owned_views(self.spent@),
            sent: self.sent,
            change: self.change,
        }
    }
}

/// What the sender and the recipient keep of a committed transfer.
#[derive(Debug)]
pub struct TransferReceipt {
    pub spent: Vec<OwnedNote>,
    pub sent: Note,
    pub change: Option<Note>,
}

/// The values of the notes of a scan result.
pub open spec fn offer_values(found: Seq<(Note, int)>) -> Seq<u64> {
    found.map_values(|f: (Note, int)| f.0.value)
}

/// The output notes of a transfer: the recipient's note, then the change.
pub open spec fn outputs_of(sent: Note, change: Option<Note>) -> Seq<Note> {
    match change {
        Some(n) => seq![sent, n],
        None => seq![sent],
    }
}

/// `p` is the transfer of `amount` from the wallet to `to_tag` on ledger `l`:
/// it spends the largest-first selection among the wallet's spendable notes,
/// creates one note of `amount` for the recipient and, if anything remains,
/// one change note for the sender, and carries the proof for exactly that,
/// with the opening that `verify` accepts.
pub open spec fn plans(
    w: WalletView,
    l: LedgerView,
    candidates: Seq<Note>,
    to_tag: [u8; 32],
    amount: u64,
    blinding: [u8; 32],
    change_blinding: [u8; 32],
    p: PreparedView,
) -> bool {
    let found = spendable(w, l, candidates);
    let values = offer_values(found);
    let taken = picked_total(values, p.picks);
    &&& covers(values, amount as int, p.picks)
    &&& p.spent == p.picks.map_values(|i: usize| found[i as int])
    &&& p.sent == Note { value: amount, owner_tag: to_tag, blinding }
    &&& match p.change {
        Some(n) => {
            &&& taken > amount
            &&& n.value == taken - amount
            &&& n.owner_tag@ == w.public_tag
            &&& n.blinding == change_blinding
        },
        None => taken == amount,
    }
    &&& p.transaction.inputs == p.spent.map_values(
        |f: (Note, int)| note_nullifier(f.0, w.spending_key),
    )
    &&& p.transaction.outputs == output_commitments(outputs_of(p.sent, p.change))
    &&& p.transaction.proof == statement_digest(p.transaction.inputs, p.transaction.outputs)
    &&& p.outputs == outputs_of(p.sent, p.change)
    &&& p.inputs.len() == p.spent.len()
    &&& forall|k: int|
        0 <= k < p.inputs.len() ==> (#[trigger] p.inputs[k]).note == p.spent[k].0
            && p.inputs[k].spending_key@ == w.spending_key
    &&& accepts(
        p.transaction.proof,
        p.transaction.inputs,
        p.transaction.outputs,
        p.inputs,
        p.outputs,
    )
}

/// The values of a scan result add up to the total value of its notes.
pub proof fn lemma_offer_total(found: Seq<(Note, int)>)
    ensures
        sum(offer_values(found)) == total_value(found_notes(found)),
    decreases found.len(),
{
    let values = offer_values(found);
    if found.len() > 0 {
        let shorter = found.drop_last();
        lemma_offer_total(shorter);
        assert(offer_values(shorter) =~= values.drop_last());
        assert(found_notes(shorter) =~= found_notes(found).drop_last());
        lemma_prefix_sum_drop_last(values);
    }
}

proof fn lemma_prefix_sum_same(a: Seq<u64>, b: Seq<u64>, n: int)
    requires
        n <= a.len(),
        n <= b.len(),
        forall|i: int| 0 <= i < n ==> a[i] == b[i],
    ensures
        prefix_sum(a, n) == prefix_sum(b, n),
    decreases n,
{
    if n > 0 {
        lemma_prefix_sum_same(a, b, n - 1);
    }
}

proof fn lemma_prefix_sum_drop_last(values: Seq<u64>)
    requires
        values.len() > 0,
    ensures
        sum(values) == sum(values.drop_last()) + values.last(),
{
    lemma_prefix_sum_same(values, values.drop_last(), values.len() - 1);
}

/// The notes at the picked positions carry the picked total.
pub proof fn lemma_picked_notes_total(found: Seq<(Note, int)>, picks: Seq<usize>)
    requires
        forall|k: int| 0 <= k < picks.len() ==> (#[trigger] picks[k]) < found.len(),
    ensures
        total_value(picks.map_values(|i: usize| found[i as int].0)) == picked_total(
            offer_values(found),
            picks,
        ),
    decreases picks.len(),
{
    let notes = picks.map_values(|i: usize| found[i as int].0);
    if picks.len() > 0 {
        let shorter = picks.drop_last();
        lemma_picked_notes_total(found, shorter);
        assert(shorter.map_values(|i: usize| found[i as int].0) =~= notes.drop_last());
    }
}

/// Every note of a selection for a positive amount has a positive value.
pub proof fn lemma_picks_positive(values: Seq<u64>, amount: int, picks: Seq<usize>)
    requires
        covers(values, amount, picks),
        amount > 0,
    ensures
        picks.len() > 0,
        forall|k: int| 0 <= k < picks.len() ==> values[(#[trigger] picks[k]) as int] > 0,
{
    let last = picks.len() - 1;
    assert forall|k: int| 0 <= k < picks.len() implies values[(#[trigger] picks[k]) as int]
        > 0 by {
        if k < last {
            assert(precedes(values, picks[k] as int, picks[last] as int));
        }
    }
}

/// Conservation: a planned transfer creates exactly the value that it spends.
pub proof fn lemma_plan_conserves(
    w: WalletView,
    l: LedgerView,
    candidates: Seq<Note>,
    to_tag: [u8; 32],
    amount: u64,
    blinding: [u8; 32],
    change_blinding: [u8; 32],
    p: PreparedView,
)
    requires
        plans(w, l, candidates, to_tag, amount, blinding, change_blinding, p),
    ensures
        total_value(found_notes(p.spent)) == total_value(outputs_of(p.sent, p.change)),
{
    let found = spendable(w, l, candidates);
    lemma_picked_notes_total(found, p.picks);
    assert(found_notes(p.spent) =~= p.picks.map_values(|i: usize| found[i as int].0));
    lemma_outputs_total(p.sent, p.change);
}

proof fn lemma_outputs_total(sent: Note, change: Option<Note>)
    ensures
        total_value(outputs_of(sent, change)) == sent.value + match change {
            Some(n) => n.value as int,
            None => 0,
        },
{
    let one = seq![sent];
    assert(total_value(one) == sent.value) by {
        assert(total_value(one.drop_last()) == 0);
    }
    match change {
        Some(n) => {
            assert(seq![sent, n] =~= one.push(n));
            lemma_total_value_push(one, n);
        },
        None => {},
    }
}

/// Result and ledger are those of committing the prepared transfer `p` on
/// ledger `l`: if the ledger admits the transaction, the ledger afterwards
/// is the one that admitting leads to and the receipt holds the notes of
/// `p`; if it refuses, the result is that refusal and the ledger is `l`.
pub open spec fn follows_plan(
    l: LedgerView,
    p: PreparedView,
    after: LedgerView,
    r: Result<TransferReceipt, ZkLedgerError>,
) -> bool {
    match commit_outcome(l, p.transaction, p.inputs, p.outputs) {
        Ok(next) => {
            &&& after == next
            &&& r matches Ok(receipt)
            &&& commitments_match(receipt.spent@)
            &&& owned_views(receipt.spent@) == p.spent
            &&& receipt.sent == p.sent
            &&& receipt.change == p.change
        },
        Err(e) => r == Err::<TransferReceipt, ZkLedgerError>(e) && after == l,
    }
}

/// The values of a list of owned notes.
pub fn values_of(found: &Vec<OwnedNote>) -> (values: Vec<u64>)
    ensures
        values@ == offer_values(owned_views(found@)),
{
    let mut values: Vec<u64> = Vec::new();
    let mut i: usize = 0;
    while i < found.len()
        invariant
            i <= found@.len(),
            values@.len() == i,
            forall|k: int| 0 <= k < i ==> values@[k] == found@[k].note.value,
        decreases found@.len() - i,
    {
        values.push(found[i].note.value);
        i = i + 1;
    }
    values
}

/// Prepares the transfer of `amount` from `wallet` to the holder of `to_tag`
/// and leaves the ledger alone.
///
/// Fails with `InvalidAmount` if the amount is zero, and otherwise with
/// `InsufficientBalance` if the wallet's spendable notes do not reach the
/// amount.  In every other case the transfer is prepared.  `blinding` goes
/// into the recipient's note and `change_blinding` into the change note.
pub fn prepare_transfer(
    ledger: &Ledger,
    wallet: &Wallet,
    candidates: &Vec<Note>,
    to_tag: &[u8; 32],
    amount: u64,
    blinding: [u8; 32],
    change_blinding: [u8; 32],
) -> (r: Result<PreparedTransfer, ZkLedgerError>)
    ensures
        r is Ok <==> amount > 0 && balance_of(wallet@, ledger@, candidates@) >= amount,
        r matches Ok(p) ==> commitments_match(p.spent@) && plans(
            wallet@,
            ledger@,
            candidates@,
            *to_tag,
            amount,
            blinding,
            change_blinding,
            p@,
        ),
        r matches Err(e) ==> if amount == 0 {
            e is InvalidAmount
        } else {
            e is InsufficientBalance
        },
{
    if amount == 0 {
        return Err(ZkLedgerError::InvalidAmount);
    }
    let found = scan(wallet, ledger, candidates);
    let values = values_of(&found);
    proof {
        lemma_offer_total(owned_views(found@));
    }
    let picks = match select_notes(&values, amount) {
        Some(p) => p,
        None => { return Err(ZkLedgerError::InsufficientBalance); },
    };
    let key = wallet.spending_key();
    let tag = wallet.public_tag();
    let ghost offer = owned_views(found@);
    let mut spent: Vec<OwnedNote> = Vec::new();
    let mut inputs: Vec<SpendInput> = Vec::new();
    let mut k: usize = 0;
    while k < picks.len()
        invariant
            k <= picks@.len(),
            spent@.len() == k,
            inputs@.len() == k,
            offer == owned_views(found@),
            values@ == offer_values(offer),
            covers(values@, amount as int, picks@),
            commitments_match(found@),
            forall|j: int| 0 <= j < k ==> (#[trigger] spent@[j]) == found@[picks@[j] as int],
            forall|j: int| 0 <= j < k ==> (#[trigger] inputs@[j]).note == spent@[j].note,
            forall|j: int| 0 <= j < k ==> (#[trigger] inputs@[j]).spending_key@ == key@,
        decreases picks@.len() - k,
    {
        let at: usize = picks[k];
        let owned: OwnedNote = found[at];
        let mut key_bytes: Vec<u8> = Vec::with_capacity(32);
        push_bytes(&mut key_bytes, &key);
        spent.push(owned);
        inputs.push(SpendInput { note: owned.note, spending_key: key_bytes });
        k = k + 1;
    }
    let spent_list = notes_of(&inputs);
    let (_, taken) = tally(&spent_list);
    proof {
        lemma_picked_notes_total(offer, picks@);
        lemma_picks_positive(values@, amount as int, picks@);
        assert(spent_list@ =~= picks@.map_values(|i: usize| offer[i as int].0));
    }
    let change_value: u64 = (taken - amount as u128) as u64;
    let sent = Note { value: amount, owner_tag: *to_tag, blinding };
    let mut outputs: Vec<Note> = Vec::with_capacity(2);
    outputs.push(sent);
    let change = if change_value > 0 {
        let note = Note { value: change_value, owner_tag: tag, blinding: change_blinding };
        outputs.push(note);
        Some(note)
    } else {
        None
    };
    proof {
        assert(outputs@ =~= outputs_of(sent, change));
        lemma_outputs_total(sent, change);
    }
    let issued = match prove(&inputs, &outputs) {
        Ok(p) => p,
        // Not reached: the amounts balance and every key is 32 bytes long.
        Err(e) => { return Err(e); },
    };
    let nullifiers = match nullifiers_of(&inputs) {
        Some(n) => n,
        // Not reached, for the same reason.
        None => { return Err(ZkLedgerError::InvalidKeyFormat); },
    };
    let commitments = commitments_of(&outputs);
    let prepared = PreparedTransfer {
        transaction: Transaction {
            proof: issued,
            input_nullifiers: nullifiers,
            output_commitments: commitments,
        },
        opening: Opening { inputs, outputs },
        picks,
        spent,
        sent,
        change,
    };
    proof {
        let p = prepared@;
        assert(p.spent =~= p.picks.map_values(|i: usize| offer[i as int]));
        assert(p.transaction.inputs =~= p.spent.map_values(
            |f: (Note, int)| note_nullifier(f.0, wallet@.spending_key),
        ));
    }
    Ok(prepared)
}

/// Transfers `amount` from `wallet` to the holder of `to_tag`: prepares the
/// transfer and commits it.  On any failure the ledger is left exactly as it
/// was.
///
/// Fails with `InvalidAmount` if the amount is zero, else with
/// `InsufficientBalance` if the wallet's spendable notes do not reach the
/// amount, else with whatever `commit` refuses the prepared transaction for.
pub fn transfer_with(
    ledger: &mut Ledger,
    wallet: &Wallet,
    candidates: &Vec<Note>,
    to_tag: &[u8; 32],
    amount: u64,
    blinding: [u8; 32],
    change_blinding: [u8; 32],
) -> (r: Result<TransferReceipt, ZkLedgerError>)
    requires
        old(ledger).wf(),
    ensures
        final(ledger).wf(),
        extends(final(ledger)@, old(ledger)@),
        r is Err ==> final(ledger)@ == old(ledger)@,
        amount == 0 ==> (r matches Err(e) && e is InvalidAmount),
        amount > 0 && balance_of(wallet@, old(ledger)@, candidates@) < amount ==> (r matches Err(e)
            && e is InsufficientBalance),
        amount > 0 && balance_of(wallet@, old(ledger)@, candidates@) >= amount ==> exists|
            p: PreparedView,
        |
            {
                &&& #[trigger] plans(
                    wallet@,
                    old(ledger)@,
                    candidates@,
                    *to_tag,
                    amount,
                    blinding,
                    change_blinding,
                    p,
                )
                &&& follows_plan(old(ledger)@, p, final(ledger)@, r)
            },
{
    let prepared = match prepare_transfer(
        ledger,
        wallet,
        candidates,
        to_tag,
        amount,
        blinding,
        change_blinding,
    ) {
        Ok(p) => p,
        Err(e) => { return Err(e); },
    };
    let PreparedTransfer { transaction, opening, picks: _, spent, sent, change } = prepared;
    match ledger.commit(transaction, &opening) {
        Ok(()) => Ok(TransferReceipt { spent, sent, change }),
        Err(e) => Err(e),
    }
}

/// Transfers `amount` from `wallet` to the holder of `to_tag`, with fresh
/// random blinding in the notes it creates.  On any failure the ledger is
/// left exactly as it was.
///
/// Fails with `InvalidAmount` if the amount is zero, else with
/// `InsufficientBalance` if the wallet's spendable notes do not reach the
/// amount.  Otherwise the outcome is that of `transfer_with` for the blinding
/// drawn: the transfer planned with it is committed, or refused for what the
/// ledger refuses it for.
pub fn transfer(
    ledger: &mut Ledger,
    wallet: &Wallet,
    candidates: &Vec<Note>,
    to_tag: &[u8; 32],
    amount: u64,
) -> (r: Result<TransferReceipt, ZkLedgerError>)
    requires
        old(ledger).wf(),
    ensures
        final(ledger).wf(),
        extends(final(ledger)@, old(ledger)@),
        r is Err ==> final(ledger)@ == old(ledger)@,
        amount == 0 ==> (r matches Err(e) && e is InvalidAmount),
        amount > 0 && balance_of(wallet@, old(ledger)@, candidates@) < amount ==> (r matches Err(e)
            && e is InsufficientBalance),
        amount > 0 && balance_of(wallet@, old(ledger)@, candidates@) >= amount ==> exists|
            blinding: [u8; 32],
            change_blinding: [u8; 32],
            p: PreparedView,
        |
            {
                &&& #[trigger] plans(
                    wallet@,
                    old(ledger)@,
                    candidates@,
                    *to_tag,
                    amount,
                    blinding,
                    change_blinding,
                    p,
                )
                &&& follows_plan(old(ledger)@, p, final(ledger)@, r)
            },
{
    let blinding = random_bytes32();
    let change_blinding = random_bytes32();
    transfer_with(ledger, wallet, candidates, to_tag, amount, blinding, change_blinding)
}

} // verus!
