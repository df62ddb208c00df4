//! How the growth of the ledger moves balances.
//!
//! The ledger grows by nullifiers and by commitments.  A wallet loses the
//! notes whose nullifiers appear and gains the new notes that are bound to
//! its tag.  The laws here say so for every wallet, for minting and for
//! transfers, wherever the notes known to the wallet are in step with the
//! ledger.

use vstd::prelude::*;
use crate::circuit::{lemma_total_value_push, output_commitments, total_value};
use crate::digest::sha256;
use crate::keys::WalletView;
use crate::ledger::{commit_outcome, LedgerView};
use crate::note::{note_commitment, note_nullifier, nullifier_bytes, Note};
use crate::processor::{offer_values, outputs_of, plans, PreparedView};
use crate::scanner::{
    balance_of, find_owned, found_notes, in_step, is_first_owned, lemma_scan_restartable,
    lemma_scan_sound, owns, scan_between, spendable, spendable_at, spent,
};
use crate::select::{
    is_picked, lemma_picked_total_is_marked_sum, lemma_selection_has_no_repeats, marked_sum,
    marks_of,
};

verus! {

/// `next` is `l` after the nullifiers `ins` and the commitments of the notes
/// `outs` were appended.
pub open spec fn grows_by(next: LedgerView, l: LedgerView, ins: Seq<Seq<u8>>, outs: Seq<Note>)
    -> bool {
    &&& next.commitments == l.commitments + output_commitments(outs)
    &&& next.nullifiers == l.nullifiers + ins
}

/// The notes `outs` are new to the ledger and differ in their commitments.
pub open spec fn fresh(l: LedgerView, outs: Seq<Note>) -> bool {
    &&& output_commitments(outs).no_duplicates()
    &&& forall|k: int|
        0 <= k < outs.len() ==> !l.commitments.contains(note_commitment(#[trigger] outs[k]))
}

/// What the wallet loses among the first `n` positions of the log when the
/// nullifiers `ins` are published: the value of every note that it could
/// spend and whose nullifier is among them.
pub open spec fn lost(v: WalletView, l: LedgerView, vault: Seq<Note>, ins: Seq<Seq<u8>>, n: int)
    -> int
    decreases n,
{
    if n <= 0 {
        0
    } else {
        lost(v, l, vault, ins, n - 1) + match spendable_at(v, l, vault, n - 1) {
            Some(note) => if ins.contains(
                sha256(nullifier_bytes(v.spending_key, l.commitments[n - 1])),
            ) {
                note.value as int
            } else {
                0
            },
            None => 0,
        }
    }
}

/// The note is bound to the wallet's tag.
pub open spec fn owned_by(v: WalletView, note: Note) -> bool {
    note.owner_tag@ == v.public_tag
}

/// What the wallet gains from the first `m` of the notes `outs`: the value
/// of every one that is bound to its tag.
pub open spec fn gained(v: WalletView, outs: Seq<Note>, m: int) -> int
    decreases m,
{
    if m <= 0 {
        0
    } else {
        gained(v, outs, m - 1) + if owned_by(v, outs[m - 1]) {
            outs[m - 1].value as int
        } else {
            0
        }
    }
}

proof fn lemma_find_owned_at(w: WalletView, candidates: Seq<Note>, c: Seq<u8>, j: int)
    requires
        is_first_owned(w, candidates, c, j),
    ensures
        find_owned(w, candidates, c) == Some(candidates[j]),
{
}

proof fn lemma_find_owned_after_append(
    w: WalletView,
    vault: Seq<Note>,
    outs: Seq<Note>,
    c: Seq<u8>,
)
    requires
        forall|k: int| 0 <= k < outs.len() ==> note_commitment(#[trigger] outs[k]) != c,
    ensures
        find_owned(w, vault + outs, c) == find_owned(w, vault, c),
{
    let more = vault + outs;
    assert forall|j: int| is_first_owned(w, more, c, j) <==> is_first_owned(w, vault, c, j) by {
        if is_first_owned(w, more, c, j) {
            assert forall|k: int| 0 <= k < j implies !owns(w, #[trigger] vault[k], c) by {
                assert(more[k] == vault[k]);
            }
        }
    }
}

proof fn lemma_found_total_push(found: Seq<(Note, int)>, note: Note, position: int)
    ensures
        total_value(found_notes(found.push((note, position)))) == total_value(found_notes(found))
            + note.value,
{
    assert(found_notes(found.push((note, position))) =~= found_notes(found).push(note));
    lemma_total_value_push(found_notes(found), note);
}

proof fn lemma_found_total_concat(a: Seq<(Note, int)>, b: Seq<(Note, int)>)
    ensures
        total_value(found_notes(a + b)) == total_value(found_notes(a)) + total_value(
            found_notes(b),
        ),
    decreases b.len(),
{
    if b.len() > 0 {
        let shorter = b.drop_last();
        lemma_found_total_concat(a, shorter);
        assert(b =~= shorter.push(b.last()));
        lemma_found_total_push(a + shorter, b.last().0, b.last().1);
        lemma_found_total_push(shorter, b.last().0, b.last().1);
    }
}

proof fn lemma_old_positions(
    v: WalletView,
    l: LedgerView,
    vault: Seq<Note>,
    next: LedgerView,
    ins: Seq<Seq<u8>>,
    outs: Seq<Note>,
    n: int,
)
    requires
        grows_by(next, l, ins, outs),
        fresh(l, outs),
        n <= l.commitments.len(),
    ensures
        total_value(found_notes(scan_between(v, next, vault + outs, 0, n))) == total_value(
            found_notes(scan_between(v, l, vault, 0, n)),
        ) - lost(v, l, vault, ins, n),
    decreases n,
{
    if n > 0 {
        lemma_old_positions(v, l, vault, next, ins, outs, n - 1);
        let q = n - 1;
        let c = l.commitments[q];
        lemma_find_owned_after_append(v, vault, outs, c);
        let nf = sha256(nullifier_bytes(v.spending_key, c));
        assert(next.nullifiers.contains(nf) <==> l.nullifiers.contains(nf) || ins.contains(nf)) by {
            if l.nullifiers.contains(nf) {
                let i = choose|i: int| 0 <= i < l.nullifiers.len() && l.nullifiers[i] == nf;
                assert(next.nullifiers[i] == nf);
            }
            if ins.contains(nf) {
                let i = choose|i: int| 0 <= i < ins.len() && ins[i] == nf;
                assert(next.nullifiers[l.nullifiers.len() + i] == nf);
            }
        }
        let before_old = scan_between(v, l, vault, 0, q);
        let before_new = scan_between(v, next, vault + outs, 0, q);
        match spendable_at(v, l, vault, q) {
            Some(note) => {
                lemma_found_total_push(before_old, note, q);
                if !ins.contains(nf) {
                    lemma_found_total_push(before_new, note, q);
                }
            },
            None => {},
        }
    }
}

proof fn lemma_new_positions(
    v: WalletView,
    l: LedgerView,
    vault: Seq<Note>,
    next: LedgerView,
    ins: Seq<Seq<u8>>,
    outs: Seq<Note>,
    m: int,
)
    requires
        in_step(vault, l),
        grows_by(next, l, ins, outs),
        fresh(l, outs),
        forall|k: int| 0 <= k < outs.len() ==> !spent(v, next, note_commitment(#[trigger] outs[k])),
        m <= outs.len(),
    ensures
        total_value(
            found_notes(
                scan_between(
                    v,
                    next,
                    vault + outs,
                    l.commitments.len() as int,
                    l.commitments.len() + m,
                ),
            ),
        ) == gained(v, outs, m),
    decreases m,
{
    let n = l.commitments.len() as int;
    if m > 0 {
        lemma_new_positions(v, l, vault, next, ins, outs, m - 1);
        let q = n + m - 1;
        let made = outs[m - 1];
        let c = note_commitment(made);
        let more = vault + outs;
        assert forall|j: int| 0 <= j < vault.len() + m - 1 implies !owns(v, #[trigger] more[j], c) by {
            if j < vault.len() {
                assert(output_commitments(vault)[j] == note_commitment(vault[j]));
            } else {
                let k = j - vault.len();
                assert(output_commitments(outs)[k] == note_commitment(outs[k]));
            }
        }
        let before = scan_between(v, next, more, n, q);
        if made.owner_tag@ == v.public_tag {
            lemma_find_owned_at(v, more, c, vault.len() + m - 1);
            lemma_found_total_push(before, made, q);
        } else {
            assert forall|j: int| !is_first_owned(v, more, c, j) by {
                if vault.len() + m - 1 < j < more.len() {
                    let k = j - vault.len();
                    assert(output_commitments(outs)[k] == note_commitment(outs[k]));
                }
            }
        }
    }
}

/// The general law of balances: when the ledger grows by nullifiers and by
/// the commitments of new notes, every wallet afterwards holds what it held
/// before, less what it lost to the nullifiers, plus what it gained in new
/// notes.  It holds where the notes are in step with the ledger and none of
/// the new notes counts as spent.
pub proof fn lemma_growth_moves_balance(
    v: WalletView,
    l: LedgerView,
    vault: Seq<Note>,
    next: LedgerView,
    ins: Seq<Seq<u8>>,
    outs: Seq<Note>,
)
    requires
        in_step(vault, l),
        grows_by(next, l, ins, outs),
        fresh(l, outs),
        forall|k: int| 0 <= k < outs.len() ==> !spent(v, next, note_commitment(#[trigger] outs[k])),
    ensures
        in_step(vault + outs, next),
        balance_of(v, next, vault + outs) == balance_of(v, l, vault) - lost(
            v,
            l,
            vault,
            ins,
            l.commitments.len() as int,
        ) + gained(v, outs, outs.len() as int),
{
    let n = l.commitments.len() as int;
    let m = outs.len() as int;
    let more = vault + outs;
    assert(output_commitments(more) =~= output_commitments(vault) + output_commitments(outs));
    lemma_old_positions(v, l, vault, next, ins, outs, n);
    lemma_new_positions(v, l, vault, next, ins, outs, m);
    lemma_scan_restartable(v, next, more, 0, n, n + m);
    lemma_found_total_concat(
        scan_between(v, next, more, 0, n),
        scan_between(v, next, more, n, n + m),
    );
}

/// No nullifier among `ins` is the nullifier, under the wallet's key, of a
/// commitment on the ledger: publishing them spends none of the wallet's
/// notes.
pub open spec fn untouched(v: WalletView, l: LedgerView, ins: Seq<Seq<u8>>) -> bool {
    forall|q: int|
        0 <= q < l.commitments.len() ==> !ins.contains(
            sha256(nullifier_bytes(v.spending_key, #[trigger] l.commitments[q])),
        )
}

/// Under the key, commitments at different positions of the log have
/// different nullifiers.
pub open spec fn nullifiers_distinct(key: Seq<u8>, commitments: Seq<Seq<u8>>) -> bool {
    forall|i: int, j: int|
        0 <= i < commitments.len() && 0 <= j < commitments.len() && i != j ==> sha256(
            nullifier_bytes(key, #[trigger] commitments[i]),
        ) != sha256(nullifier_bytes(key, #[trigger] commitments[j]))
}

/// A wallet whose notes the nullifiers leave alone loses nothing.
pub proof fn lemma_untouched_loses_nothing(
    v: WalletView,
    l: LedgerView,
    vault: Seq<Note>,
    ins: Seq<Seq<u8>>,
    n: int,
)
    requires
        untouched(v, l, ins),
        n <= l.commitments.len(),
    ensures
        lost(v, l, vault, ins, n) == 0,
    decreases n,
{
    if n > 0 {
        lemma_untouched_loses_nothing(v, l, vault, ins, n - 1);
    }
}

/// Minting credits exactly the owner: after a note is created, the wallet
/// that the note is bound to holds the note's value besides what it held
/// before, and every other wallet holds what it held before.  This holds
/// where the notes are in step with the ledger, the new commitment is not
/// yet published, and the new note does not count as spent.
pub proof fn lemma_mint_credits_owner(v: WalletView, l: LedgerView, vault: Seq<Note>, note: Note)
    requires
        in_step(vault, l),
        !l.commitments.contains(note_commitment(note)),
        !spent(v, l, note_commitment(note)),
    ensures
        balance_of(
            v,
            LedgerView { commitments: l.commitments.push(note_commitment(note)), ..l },
            vault.push(note),
        ) == balance_of(v, l, vault) + if owned_by(v, note) {
            note.value as int
        } else {
            0
        },
{
    let next = LedgerView { commitments: l.commitments.push(note_commitment(note)), ..l };
    let outs = seq![note];
    let ins = Seq::<Seq<u8>>::empty();
    assert(vault.push(note) =~= vault + outs);
    assert(next.commitments =~= l.commitments + output_commitments(outs));
    lemma_untouched_loses_nothing(v, l, vault, ins, l.commitments.len() as int);
    lemma_growth_moves_balance(v, l, vault, next, ins, outs);
    reveal_with_fuel(gained, 2);
}

/// The ledger that admitting the transaction of a prepared transfer leads
/// to.
pub open spec fn after_transfer(l: LedgerView, p: PreparedView) -> LedgerView {
    commit_outcome(l, p.transaction, p.inputs, p.outputs)->Ok_0
}

/// The notes known after a transfer: those known before, then the
/// recipient's note, then the change.
pub open spec fn vault_after_transfer(vault: Seq<Note>, p: PreparedView) -> Seq<Note> {
    vault + outputs_of(p.sent, p.change)
}

/// None of the notes that the transfer creates counts as spent for the
/// wallet on the ledger after the transfer.
pub open spec fn new_notes_unspent(v: WalletView, l: LedgerView, p: PreparedView) -> bool {
    forall|k: int|
        0 <= k < outputs_of(p.sent, p.change).len() ==> !spent(
            v,
            after_transfer(l, p),
            note_commitment(#[trigger] outputs_of(p.sent, p.change)[k]),
        )
}

proof fn lemma_plan_grows(
    w: WalletView,
    l: LedgerView,
    vault: Seq<Note>,
    to_tag: [u8; 32],
    amount: u64,
    blinding: [u8; 32],
    change_blinding: [u8; 32],
    p: PreparedView,
)
    requires
        plans(w, l, vault, to_tag, amount, blinding, change_blinding, p),
        commit_outcome(l, p.transaction, p.inputs, p.outputs) is Ok,
    ensures
        grows_by(after_transfer(l, p), l, p.transaction.inputs, outputs_of(p.sent, p.change)),
        fresh(l, outputs_of(p.sent, p.change)),
{
    let outs = outputs_of(p.sent, p.change);
    assert forall|k: int| 0 <= k < outs.len() implies !l.commitments.contains(
        note_commitment(#[trigger] outs[k]),
    ) by {
        assert(p.transaction.outputs[k] == note_commitment(outs[k]));
        if l.commitments.contains(note_commitment(outs[k])) {
            let j = choose|j: int|
                0 <= j < l.commitments.len() && l.commitments[j] == note_commitment(outs[k]);
            assert(p.transaction.outputs[k] != l.commitments[j]);
        }
    }
}

proof fn lemma_gained_from_outputs(v: WalletView, sent: Note, change: Option<Note>)
    ensures
        gained(v, outputs_of(sent, change), outputs_of(sent, change).len() as int) == (if owned_by(
            v,
            sent,
        ) {
            sent.value as int
        } else {
            0
        }) + match change {
            Some(n) => if owned_by(v, n) {
                n.value as int
            } else {
                0
            },
            None => 0,
        },
{
    reveal_with_fuel(gained, 3);
}

proof fn lemma_lost_is_marked(
    w: WalletView,
    l: LedgerView,
    vault: Seq<Note>,
    picks: Seq<usize>,
    ins: Seq<Seq<u8>>,
    n: int,
)
    requires
        0 <= n <= l.commitments.len(),
        nullifiers_distinct(w.spending_key, l.commitments),
        ins.len() == picks.len(),
        forall|k: int| 0 <= k < picks.len() ==> (#[trigger] picks[k]) < spendable(w, l, vault).len(),
        forall|k: int|
            0 <= k < picks.len() ==> #[trigger] ins[k] == note_nullifier(
                spendable(w, l, vault)[picks[k] as int].0,
                w.spending_key,
            ),
    ensures
        scan_between(w, l, vault, 0, n).len() <= spendable(w, l, vault).len(),
        lost(w, l, vault, ins, n) == marked_sum(
            offer_values(spendable(w, l, vault)),
            marks_of(picks, spendable(w, l, vault).len() as int),
            scan_between(w, l, vault, 0, n).len() as int,
        ),
    decreases n,
{
    let total = l.commitments.len() as int;
    let found = spendable(w, l, vault);
    lemma_scan_restartable(w, l, vault, 0, n, total);
    if n > 0 {
        lemma_lost_is_marked(w, l, vault, picks, ins, n - 1);
        let q = n - 1;
        let c = l.commitments[q];
        let nf = sha256(nullifier_bytes(w.spending_key, c));
        let earlier = scan_between(w, l, vault, 0, q);
        let i = earlier.len() as int;
        match spendable_at(w, l, vault, q) {
            Some(note) => {
                let here = scan_between(w, l, vault, 0, n);
                assert(found[i] == here[i]);
                lemma_scan_sound(w, l, vault, 0, total);
                assert(ins.contains(nf) <==> is_picked(picks, i)) by {
                    if is_picked(picks, i) {
                        let k = choose|k: int|
                            0 <= k < picks.len() && #[trigger] picks[k] as int == i;
                        assert(ins[k] == nf);
                    }
                    if ins.contains(nf) {
                        let k = choose|k: int| 0 <= k < ins.len() && ins[k] == nf;
                        let j = picks[k] as int;
                    }
                }
            },
            None => {},
        }
    }
}

/// A transfer debits the sender by the amount: the sender afterwards holds
/// what it held before less the amount, or just what it held before if it
/// sent to itself.  This holds where the notes are in step with the ledger,
/// the transaction is admitted, none of the new notes counts as spent, and
/// the sender's key gives different nullifiers to the commitments at
/// different positions of the log.
pub proof fn lemma_transfer_debits_sender(
    w: WalletView,
    l: LedgerView,
    vault: Seq<Note>,
    to_tag: [u8; 32],
    amount: u64,
    blinding: [u8; 32],
    change_blinding: [u8; 32],
    p: PreparedView,
)
    requires
        in_step(vault, l),
        plans(w, l, vault, to_tag, amount, blinding, change_blinding, p),
        commit_outcome(l, p.transaction, p.inputs, p.outputs) is Ok,
        new_notes_unspent(w, l, p),
        nullifiers_distinct(w.spending_key, l.commitments),
    ensures
        balance_of(w, after_transfer(l, p), vault_after_transfer(vault, p)) == balance_of(
            w,
            l,
            vault,
        ) - amount + if to_tag@ == w.public_tag {
            amount as int
        } else {
            0
        },
{
    let found = spendable(w, l, vault);
    let values = offer_values(found);
    let n = l.commitments.len() as int;
    let outs = outputs_of(p.sent, p.change);
    let ins = p.transaction.inputs;
    lemma_plan_grows(w, l, vault, to_tag, amount, blinding, change_blinding, p);
    lemma_growth_moves_balance(w, l, vault, after_transfer(l, p), ins, outs);
    lemma_gained_from_outputs(w, p.sent, p.change);
    lemma_lost_is_marked(w, l, vault, p.picks, ins, n);
    lemma_selection_has_no_repeats(values, p.picks);
    lemma_picked_total_is_marked_sum(values, p.picks);
}

/// A transfer credits the recipient by the amount, and moves no other
/// wallet's balance: a wallet other than the sender afterwards holds what
/// it held before, plus the amount if the transfer was made out to its tag.
/// This holds where the notes are in step with the ledger, the transaction
/// is admitted, none of the new notes counts as spent, and the transaction
/// publishes no nullifier of a note of that wallet.
pub proof fn lemma_transfer_credits_recipient(
    v: WalletView,
    w: WalletView,
    l: LedgerView,
    vault: Seq<Note>,
    to_tag: [u8; 32],
    amount: u64,
    blinding: [u8; 32],
    change_blinding: [u8; 32],
    p: PreparedView,
)
    requires
        in_step(vault, l),
        plans(w, l, vault, to_tag, amount, blinding, change_blinding, p),
        commit_outcome(l, p.transaction, p.inputs, p.outputs) is Ok,
        new_notes_unspent(v, l, p),
        v.public_tag != w.public_tag,
        untouched(v, l, p.transaction.inputs),
    ensures
        balance_of(v, after_transfer(l, p), vault_after_transfer(vault, p)) == balance_of(
            v,
            l,
            vault,
        ) + if to_tag@ == v.public_tag {
            amount as int
        } else {
            0
        },
{
    let outs = outputs_of(p.sent, p.change);
    let ins = p.transaction.inputs;
    lemma_plan_grows(w, l, vault, to_tag, amount, blinding, change_blinding, p);
    lemma_growth_moves_balance(v, l, vault, after_transfer(l, p), ins, outs);
    lemma_gained_from_outputs(v, p.sent, p.change);
    lemma_untouched_loses_nothing(v, l, vault, ins, l.commitments.len() as int);
}

/// What the first `n` of the wallets hold together.
pub open spec fn total_balance(wallets: Seq<WalletView>, l: LedgerView, vault: Seq<Note>, n: int)
    -> int
    decreases n,
{
    if n <= 0 {
        0
    } else {
        total_balance(wallets, l, vault, n - 1) + balance_of(wallets[n - 1], l, vault)
    }
}

/// No two of the wallets have the same tag.
pub open spec fn tags_distinct(wallets: Seq<WalletView>) -> bool {
    forall|i: int, j: int|
        0 <= i < wallets.len() && 0 <= j < wallets.len() && i != j ==> (
        #[trigger] wallets[i]).public_tag != (#[trigger] wallets[j]).public_tag
}

/// What `lemma_transfer_keeps_the_total` asks of a transfer from the wallet
/// at index `sender` to the wallet at index `recipient`: the transfer is
/// planned on a ledger in step with the notes and is admitted; no two
/// wallets share a tag; none of the new notes counts as spent for any
/// wallet; the sender's key gives different nullifiers to the commitments at
/// different positions; and the transaction publishes no nullifier of a note
/// of another wallet.
pub open spec fn transfer_among(
    wallets: Seq<WalletView>,
    sender: int,
    recipient: int,
    l: LedgerView,
    vault: Seq<Note>,
    to_tag: [u8; 32],
    amount: u64,
    blinding: [u8; 32],
    change_blinding: [u8; 32],
    p: PreparedView,
) -> bool {
    &&& 0 <= sender < wallets.len()
    &&& 0 <= recipient < wallets.len()
    &&& to_tag@ == wallets[recipient].public_tag
    &&& tags_distinct(wallets)
    &&& in_step(vault, l)
    &&& plans(wallets[sender], l, vault, to_tag, amount, blinding, change_blinding, p)
    &&& commit_outcome(l, p.transaction, p.inputs, p.outputs) is Ok
    &&& nullifiers_distinct(wallets[sender].spending_key, l.commitments)
    &&& forall|i: int| 0 <= i < wallets.len() ==> new_notes_unspent(#[trigger] wallets[i], l, p)
    &&& forall|i: int|
        0 <= i < wallets.len() && i != sender ==> untouched(
            #[trigger] wallets[i],
            l,
            p.transaction.inputs,
        )
}

proof fn lemma_transfer_moves_the_amount(
    wallets: Seq<WalletView>,
    sender: int,
    recipient: int,
    l: LedgerView,
    vault: Seq<Note>,
    to_tag: [u8; 32],
    amount: u64,
    blinding: [u8; 32],
    change_blinding: [u8; 32],
    p: PreparedView,
    n: int,
)
    requires
        transfer_among(
            wallets,
            sender,
            recipient,
            l,
            vault,
            to_tag,
            amount,
            blinding,
            change_blinding,
            p,
        ),
        0 <= n <= wallets.len(),
    ensures
        total_balance(wallets, after_transfer(l, p), vault_after_transfer(vault, p), n)
            == total_balance(wallets, l, vault, n) - (if sender < n {
            amount as int
        } else {
            0
        }) + (if recipient < n {
            amount as int
        } else {
            0
        }),
    decreases n,
{
    if n > 0 {
        lemma_transfer_moves_the_amount(
            wallets,
            sender,
            recipient,
            l,
            vault,
            to_tag,
            amount,
            blinding,
            change_blinding,
            p,
            n - 1,
        );
        let i = n - 1;
        let w = wallets[sender];
        if i == sender {
            lemma_transfer_debits_sender(w, l, vault, to_tag, amount, blinding, change_blinding, p);
        } else {
            lemma_transfer_credits_recipient(
                wallets[i],
                w,
                l,
                vault,
                to_tag,
                amount,
                blinding,
                change_blinding,
                p,
            );
        }
    }
}

/// Conservation over all wallets: an admitted transfer creates and destroys
/// no value.  What the wallets hold together after the transfer is what they
/// held together before; the sender holds the amount less, the recipient the
/// amount more, and every other wallet what it held.
pub proof fn lemma_transfer_keeps_the_total(
    wallets: Seq<WalletView>,
    sender: int,
    recipient: int,
    l: LedgerView,
    vault: Seq<Note>,
    to_tag: [u8; 32],
    amount: u64,
    blinding: [u8; 32],
    change_blinding: [u8; 32],
    p: PreparedView,
)
    requires
        transfer_among(
            wallets,
            sender,
            recipient,
            l,
            vault,
            to_tag,
            amount,
            blinding,
            change_blinding,
            p,
        ),
    ensures
        total_balance(
            wallets,
            after_transfer(l, p),
            vault_after_transfer(vault, p),
            wallets.len() as int,
        ) == total_balance(wallets, l, vault, wallets.len() as int),
        forall|i: int|
            0 <= i < wallets.len() ==> balance_of(
                #[trigger] wallets[i],
                after_transfer(l, p),
                vault_after_transfer(vault, p),
            ) == balance_of(wallets[i], l, vault) - (if i == sender {
                amount as int
            } else {
                0
            }) + (if i == recipient {
                amount as int
            } else {
                0
            }),
{
    lemma_transfer_moves_the_amount(
        wallets,
        sender,
        recipient,
        l,
        vault,
        to_tag,
        amount,
        blinding,
        change_blinding,
        p,
        wallets.len() as int,
    );
    let w = wallets[sender];
    assert forall|i: int| 0 <= i < wallets.len() implies balance_of(
        #[trigger] wallets[i],
        after_transfer(l, p),
        vault_after_transfer(vault, p),
    ) == balance_of(wallets[i], l, vault) - (if i == sender {
        amount as int
    } else {
        0
    }) + (if i == recipient {
        amount as int
    } else {
        0
    }) by {
        if i == sender {
            lemma_transfer_debits_sender(w, l, vault, to_tag, amount, blinding, change_blinding, p);
        } else {
            lemma_transfer_credits_recipient(
                wallets[i],
                w,
                l,
                vault,
                to_tag,
                amount,
                blinding,
                change_blinding,
                p,
            );
        }
    }
}

} // verus!
