//! The ledger: the published commitments, the published nullifiers and the
//! log of transactions.
//!
//! The ledger only grows.  A transaction is admitted whole or not at all:
//! `commit` first checks everything and then appends nullifiers, commitments
//! and the transaction record together.  A transaction is admitted only
//! together with an opening that `verify` accepts, so that every recorded
//! transaction conserves value; the opening itself is not recorded.

use vstd::prelude::*;
use crate::circuit::{
    accepts, binds, conserving, opens, verify, Opening, SpendInput, TransferProof,
};
use crate::digest::{all_digests, digest_eq, same_digests, views};
use crate::error::ZkLedgerError;
use crate::note::{Commitment, Note, Nullifier};

verus! {

/// A transfer as it is published: a proof, the nullifiers of the notes it
/// spends and the commitments of the notes it creates.
#[derive(Debug)]
pub struct Transaction {
    pub proof: TransferProof,
    pub input_nullifiers: Vec<Nullifier>,
    pub output_commitments: Vec<Commitment>,
}

/// The mathematical content of a transaction.
pub struct TransactionView {
    pub proof: Seq<u8>,
    pub inputs: Seq<Seq<u8>>,
    pub outputs: Seq<Seq<u8>>,
}

impl View for Transaction {
    type V = TransactionView;

    open spec fn view(&self) -> TransactionView {
        TransactionView {
            proof: self.proof@,
            inputs: views(self.input_nullifiers@),
            outputs: views(self.output_commitments@),
        }
    }
}

/// The mathematical content of a ledger.
pub struct LedgerView {
    /// Every commitment ever published, in the order of publication.
    pub commitments: Seq<Seq<u8>>,
    /// Every nullifier ever published, in the order of publication.
    pub nullifiers: Seq<Seq<u8>>,
    /// Every transaction ever admitted, in the order of admission.
    pub transactions: Seq<TransactionView>,
}

/// The authoritative shared state.
#[derive(Debug)]
pub struct Ledger {
    commitments: Vec<Commitment>,
    nullifiers: Vec<Nullifier>,
    transactions: Vec<Transaction>,
}

/// The contents of a list of transactions.
pub open spec fn transaction_views(transactions: Seq<Transaction>) -> Seq<TransactionView> {
    transactions.map_values(|t: Transaction| t@)
}

/// The nullifiers that a list of transactions has published, in order.
pub open spec fn published_inputs(transactions: Seq<TransactionView>) -> Seq<Seq<u8>>
    decreases transactions.len(),
{
    if transactions.len() == 0 {
        Seq::empty()
    } else {
        published_inputs(transactions.drop_last()) + transactions.last().inputs
    }
}

/// No element of `a` occurs in `b`.
pub open spec fn disjoint(a: Seq<Seq<u8>>, b: Seq<Seq<u8>>) -> bool {
    forall|i: int, j: int| 0 <= i < a.len() && 0 <= j < b.len() ==> a[i] != b[j]
}

/// A transaction made of 32-byte digests.
pub open spec fn transaction_shaped(tx: TransactionView) -> bool {
    all_digests(tx.inputs) && all_digests(tx.outputs)
}

/// What must hold of a ledger at all times:
/// nothing is published twice; the published nullifiers are exactly those of
/// the recorded transactions, in order; every commitment that a recorded
/// transaction created is published; and every recorded transaction carries
/// the proof for its own nullifiers and commitments and conserves value:
/// notes stand behind its nullifiers and commitments, and they balance.
pub open spec fn well_formed(l: LedgerView) -> bool {
    &&& all_digests(l.commitments)
    &&& all_digests(l.nullifiers)
    &&& l.commitments.no_duplicates()
    &&& l.nullifiers.no_duplicates()
    &&& l.nullifiers == published_inputs(l.transactions)
    &&& forall|i: int|
        0 <= i < l.transactions.len() ==> {
            let tx = #[trigger] l.transactions[i];
            &&& transaction_shaped(tx)
            &&& binds(tx.proof, tx.inputs, tx.outputs)
            &&& conserving(tx.inputs, tx.outputs)
            &&& forall|j: int| 0 <= j < tx.outputs.len() ==> l.commitments.contains(tx.outputs[j])
        }
}

/// The lists describe a ledger, and each opening is accepted for the
/// transaction at its index.
pub open spec fn opened_by(l: LedgerView, openings: Seq<Opening>) -> bool {
    &&& all_digests(l.commitments)
    &&& all_digests(l.nullifiers)
    &&& l.commitments.no_duplicates()
    &&& l.nullifiers.no_duplicates()
    &&& l.nullifiers == published_inputs(l.transactions)
    &&& openings.len() == l.transactions.len()
    &&& forall|i: int|
        0 <= i < l.transactions.len() ==> {
            let tx = #[trigger] l.transactions[i];
            &&& transaction_shaped(tx)
            &&& accepts(tx.proof, tx.inputs, tx.outputs, openings[i].inputs@, openings[i].outputs@)
            &&& forall|j: int| 0 <= j < tx.outputs.len() ==> l.commitments.contains(tx.outputs[j])
        }
}

/// A ledger whose transactions are all opened is well formed.
pub proof fn lemma_opened_is_well_formed(l: LedgerView, openings: Seq<Opening>)
    requires
        opened_by(l, openings),
    ensures
        well_formed(l),
{
}

/// The ledger that publishing one more commitment leads to, or the reason
/// why the commitment is refused.
pub open spec fn publish_outcome(l: LedgerView, commitment: Seq<u8>) -> Result<
    LedgerView,
    ZkLedgerError,
> {
    if l.commitments.contains(commitment) {
        Err(ZkLedgerError::DuplicateCommitment)
    } else {
        Ok(LedgerView { commitments: l.commitments.push(commitment), ..l })
    }
}

/// The ledger that admitting a transaction leads to when it is shown with
/// the given notes and keys, or the reason why the transaction is refused.
/// Proof and opening are checked first, then the nullifiers, then the
/// commitments.
pub open spec fn commit_outcome(
    l: LedgerView,
    tx: TransactionView,
    inputs: Seq<SpendInput>,
    outputs: Seq<Note>,
) -> Result<LedgerView, ZkLedgerError> {
    if !accepts(tx.proof, tx.inputs, tx.outputs, inputs, outputs) {
        Err(ZkLedgerError::InvalidProof)
    } else if !tx.inputs.no_duplicates() || !disjoint(tx.inputs, l.nullifiers) {
        Err(ZkLedgerError::NoteAlreadySpent)
    } else if !tx.outputs.no_duplicates() || !disjoint(tx.outputs, l.commitments) {
        Err(ZkLedgerError::DuplicateCommitment)
    } else {
        Ok(
            LedgerView {
                commitments: l.commitments + tx.outputs,
                nullifiers: l.nullifiers + tx.inputs,
                transactions: l.transactions.push(tx),
            },
        )
    }
}

/// `earlier` is a ledger that `later` has grown from: nothing was removed,
/// reordered or rewritten.
pub open spec fn extends(later: LedgerView, earlier: LedgerView) -> bool {
    &&& earlier.commitments.is_prefix_of(later.commitments)
    &&& earlier.nullifiers.is_prefix_of(later.nullifiers)
    &&& earlier.transactions.is_prefix_of(later.transactions)
}

/// Publishing a commitment keeps the ledger well formed and only makes it
/// grow.
pub proof fn lemma_publish_preserves(l: LedgerView, commitment: Seq<u8>)
    requires
        well_formed(l),
        commitment.len() == 32,
        publish_outcome(l, commitment) is Ok,
    ensures
        well_formed(publish_outcome(l, commitment)->Ok_0),
        extends(publish_outcome(l, commitment)->Ok_0, l),
{
    let next = publish_outcome(l, commitment)->Ok_0;
    assert forall|i: int| 0 <= i < next.transactions.len() implies {
        let tx = #[trigger] next.transactions[i];
        forall|j: int| 0 <= j < tx.outputs.len() ==> next.commitments.contains(tx.outputs[j])
    } by {
        let tx = l.transactions[i];
        assert forall|j: int| 0 <= j < tx.outputs.len() implies next.commitments.contains(
            tx.outputs[j],
        ) by {
            let k = choose|k: int| 0 <= k < l.commitments.len() && l.commitments[k] == tx.outputs[j];
            assert(next.commitments[k] == tx.outputs[j]);
        }
    }
}

/// Admitting a transaction keeps the ledger well formed and only makes it
/// grow.
pub proof fn lemma_commit_preserves(
    l: LedgerView,
    tx: TransactionView,
    inputs: Seq<SpendInput>,
    outputs: Seq<Note>,
)
    requires
        well_formed(l),
        transaction_shaped(tx),
        commit_outcome(l, tx, inputs, outputs) is Ok,
    ensures
        well_formed(commit_outcome(l, tx, inputs, outputs)->Ok_0),
        extends(commit_outcome(l, tx, inputs, outputs)->Ok_0, l),
{
    let next = commit_outcome(l, tx, inputs, outputs)->Ok_0;
    assert(next.transactions.drop_last() =~= l.transactions);
    assert forall|i: int| 0 <= i < next.transactions.len() implies {
        let t = #[trigger] next.transactions[i];
        &&& transaction_shaped(t)
        &&& binds(t.proof, t.inputs, t.outputs)
        &&& conserving(t.inputs, t.outputs)
        &&& forall|j: int| 0 <= j < t.outputs.len() ==> next.commitments.contains(t.outputs[j])
    } by {
        let t = next.transactions[i];
        if i < l.transactions.len() {
            assert forall|j: int| 0 <= j < t.outputs.len() implies next.commitments.contains(
                t.outputs[j],
            ) by {
                let k = choose|k: int|
                    0 <= k < l.commitments.len() && l.commitments[k] == t.outputs[j];
                assert(next.commitments[k] == t.outputs[j]);
            }
        } else {
            assert forall|j: int| 0 <= j < t.outputs.len() implies next.commitments.contains(
                t.outputs[j],
            ) by {
                assert(next.commitments[l.commitments.len() + j] == t.outputs[j]);
            }
        }
    }
}

/// Admitting a transaction appends its nullifiers, its commitments and its
/// record, and nothing else.
pub proof fn lemma_commit_preserves_growth(
    l: LedgerView,
    tx: TransactionView,
    inputs: Seq<SpendInput>,
    outputs: Seq<Note>,
)
    requires
        commit_outcome(l, tx, inputs, outputs) is Ok,
    ensures
        ({
            let next = commit_outcome(l, tx, inputs, outputs)->Ok_0;
            &&& extends(next, l)
            &&& next.transactions.len() == l.transactions.len() + 1
            &&& next.nullifiers.len() == l.nullifiers.len() + tx.inputs.len()
            &&& next.commitments.len() == l.commitments.len() + tx.outputs.len()
        }),
{
}

/// Every nullifier that a list of transactions has published stands in one
/// of them.
pub proof fn lemma_published_input_has_source(transactions: Seq<TransactionView>, nullifier: Seq<u8>)
    requires
        published_inputs(transactions).contains(nullifier),
    ensures
        exists|i: int|
            0 <= i < transactions.len() && (#[trigger] transactions[i]).inputs.contains(nullifier),
    decreases transactions.len(),
{
    if transactions.len() > 0 {
        let earlier = transactions.drop_last();
        let all = published_inputs(transactions);
        let k = choose|k: int| 0 <= k < all.len() && all[k] == nullifier;
        if k < published_inputs(earlier).len() {
            lemma_published_input_has_source(earlier, nullifier);
            let i = choose|i: int|
                0 <= i < earlier.len() && (#[trigger] earlier[i]).inputs.contains(nullifier);
            assert(transactions[i] == earlier[i]);
        }
    }
}

/// On a well-formed ledger every published nullifier was published by a
/// recorded transaction.
pub proof fn lemma_nullifier_has_transaction(l: LedgerView, nullifier: Seq<u8>)
    requires
        well_formed(l),
        l.nullifiers.contains(nullifier),
    ensures
        exists|i: int|
            0 <= i < l.transactions.len() && (#[trigger] l.transactions[i]).inputs.contains(
                nullifier,
            ),
{
    lemma_published_input_has_source(l.transactions, nullifier);
}

/// On a well-formed ledger every commitment that a recorded transaction
/// created stands in the commitment log at exactly one position.
pub proof fn lemma_output_published_once(l: LedgerView, i: int, j: int)
    requires
        well_formed(l),
        0 <= i < l.transactions.len(),
        0 <= j < l.transactions[i].outputs.len(),
    ensures
        exists|k: int|
            {
                &&& 0 <= k < l.commitments.len()
                &&& #[trigger] l.commitments[k] == l.transactions[i].outputs[j]
                &&& forall|m: int|
                    0 <= m < l.commitments.len() && m != k ==> l.commitments[m]
                        != l.transactions[i].outputs[j]
            },
{
    let tx = l.transactions[i];
    let k = choose|k: int| 0 <= k < l.commitments.len() && l.commitments[k] == tx.outputs[j];
    assert(l.commitments[k] == tx.outputs[j]);
}

/// Conservation on admission: an admitted transaction conserves value.
/// Behind its nullifiers are input notes, behind its commitments are output
/// notes, none is empty, and both carry the same total value.
pub proof fn lemma_admitted_conserves(
    l: LedgerView,
    tx: TransactionView,
    inputs: Seq<SpendInput>,
    outputs: Seq<Note>,
)
    requires
        commit_outcome(l, tx, inputs, outputs) is Ok,
    ensures
        exists|spent: Seq<SpendInput>, made: Seq<Note>|
            tx.inputs == #[trigger] crate::circuit::spend_nullifiers(spent) && tx.outputs
                == #[trigger] crate::circuit::output_commitments(made)
                && crate::circuit::amounts_balance(spent, made),
{
}

/// Every transaction recorded on a well-formed ledger conserves value.
pub proof fn lemma_recorded_conserves(l: LedgerView, i: int)
    requires
        well_formed(l),
        0 <= i < l.transactions.len(),
    ensures
        exists|spent: Seq<SpendInput>, made: Seq<Note>|
            l.transactions[i].inputs == #[trigger] crate::circuit::spend_nullifiers(spent)
                && l.transactions[i].outputs == #[trigger] crate::circuit::output_commitments(made)
                && crate::circuit::amounts_balance(spent, made),
{
    let tx = l.transactions[i];
    let (spent, made) = choose|spent: Seq<SpendInput>, made: Seq<Note>|
        #[trigger] opens(tx.inputs, tx.outputs, spent, made);
    assert(tx.inputs == crate::circuit::spend_nullifiers(spent));
    assert(tx.outputs == crate::circuit::output_commitments(made));
}

/// Unequal totals are never admitted: a transaction shown with notes whose
/// totals differ is refused as `InvalidProof`, whatever its proof.
pub proof fn lemma_unbalanced_is_refused(
    l: LedgerView,
    tx: TransactionView,
    inputs: Seq<SpendInput>,
    outputs: Seq<Note>,
)
    requires
        crate::circuit::total_value(crate::circuit::spent_notes(inputs))
            != crate::circuit::total_value(outputs),
    ensures
        commit_outcome(l, tx, inputs, outputs) == Err::<LedgerView, ZkLedgerError>(
            ZkLedgerError::InvalidProof,
        ),
{
}

/// No double spend: while a nullifier stands on the ledger, every
/// transaction that publishes it again is refused, and one with a valid proof
/// is refused as `NoteAlreadySpent`.
pub proof fn lemma_spent_note_is_refused(
    l: LedgerView,
    tx: TransactionView,
    inputs: Seq<SpendInput>,
    outputs: Seq<Note>,
    nullifier: Seq<u8>,
)
    requires
        l.nullifiers.contains(nullifier),
        tx.inputs.contains(nullifier),
    ensures
        commit_outcome(l, tx, inputs, outputs) is Err,
        accepts(tx.proof, tx.inputs, tx.outputs, inputs, outputs) ==> commit_outcome(
            l,
            tx,
            inputs,
            outputs,
        ) == Err::<
            LedgerView,
            ZkLedgerError,
        >(ZkLedgerError::NoteAlreadySpent),
{
}

/// A nullifier that an admitted transaction published stays on every ledger
/// that grows from the result.
pub proof fn lemma_nullifier_stays(
    l: LedgerView,
    tx: TransactionView,
    inputs: Seq<SpendInput>,
    outputs: Seq<Note>,
    later: LedgerView,
    nullifier: Seq<u8>,
)
    requires
        commit_outcome(l, tx, inputs, outputs) is Ok,
        tx.inputs.contains(nullifier),
        extends(later, commit_outcome(l, tx, inputs, outputs)->Ok_0),
    ensures
        later.nullifiers.contains(nullifier),
{
    let next = commit_outcome(l, tx, inputs, outputs)->Ok_0;
    let k = choose|k: int| 0 <= k < tx.inputs.len() && tx.inputs[k] == nullifier;
    assert(next.nullifiers[l.nullifiers.len() + k] == nullifier);
}

/// Of two transactions that spend a common note, at most one is admitted,
/// whichever comes first: once the first is admitted, the second is refused
/// as `NoteAlreadySpent`, and the ledger then holds one transaction and the
/// nullifiers of one transaction more than before.
pub proof fn lemma_conflicting_transfers_exclude(
    l: LedgerView,
    first: TransactionView,
    first_inputs: Seq<SpendInput>,
    first_outputs: Seq<Note>,
    second: TransactionView,
    second_inputs: Seq<SpendInput>,
    second_outputs: Seq<Note>,
    nullifier: Seq<u8>,
)
    requires
        first.inputs.contains(nullifier),
        second.inputs.contains(nullifier),
        commit_outcome(l, first, first_inputs, first_outputs) is Ok,
        accepts(second.proof, second.inputs, second.outputs, second_inputs, second_outputs),
    ensures
        commit_outcome(
            commit_outcome(l, first, first_inputs, first_outputs)->Ok_0,
            second,
            second_inputs,
            second_outputs,
        ) == Err::<LedgerView, ZkLedgerError>(ZkLedgerError::NoteAlreadySpent),
        commit_outcome(l, first, first_inputs, first_outputs)->Ok_0.transactions.len()
            == l.transactions.len() + 1,
        commit_outcome(l, first, first_inputs, first_outputs)->Ok_0.nullifiers.len()
            == l.nullifiers.len() + first.inputs.len(),
{
    let next = commit_outcome(l, first, first_inputs, first_outputs)->Ok_0;
    lemma_nullifier_stays(l, first, first_inputs, first_outputs, next, nullifier);
}

impl View for Ledger {
    type V = LedgerView;

    closed spec fn view(&self) -> LedgerView {
        LedgerView {
            commitments: views(self.commitments@),
            nullifiers: views(self.nullifiers@),
            transactions: transaction_views(self.transactions@),
        }
    }
}

/// Whether `digest` occurs in `list`.
pub fn contains_digest(list: &Vec<[u8; 32]>, digest: &[u8; 32]) -> (found: bool)
    ensures
        found == views(list@).contains(digest@),
{
    let mut i: usize = 0;
    while i < list.len()
        invariant
            i <= list@.len(),
            forall|k: int| 0 <= k < i ==> views(list@)[k] != digest@,
        decreases list@.len() - i,
    {
        if digest_eq(&list[i], digest) {
            proof {
                assert(views(list@)[i as int] == digest@);
            }
            return true;
        }
        i = i + 1;
    }
    false
}

/// Whether no element of `a` occurs in `b`.
pub fn disjoint_digests(a: &Vec<[u8; 32]>, b: &Vec<[u8; 32]>) -> (apart: bool)
    ensures
        apart == disjoint(views(a@), views(b@)),
{
    let mut i: usize = 0;
    while i < a.len()
        invariant
            i <= a@.len(),
            forall|k: int, j: int|
                0 <= k < i && 0 <= j < b@.len() ==> views(a@)[k] != views(b@)[j],
        decreases a@.len() - i,
    {
        if contains_digest(b, &a[i]) {
            proof {
                let j = choose|j: int| 0 <= j < views(b@).len() && views(b@)[j] == a@[i as int]@;
                assert(views(a@)[i as int] == views(b@)[j]);
            }
            return false;
        }
        i = i + 1;
    }
    true
}

/// Whether no digest occurs twice in `list`.
pub fn distinct_digests(list: &Vec<[u8; 32]>) -> (distinct: bool)
    ensures
        distinct == views(list@).no_duplicates(),
{
    let mut i: usize = 0;
    while i < list.len()
        invariant
            i <= list@.len(),
            forall|k: int, j: int| 0 <= k < i && k < j < list@.len() ==> views(list@)[k] != views(
                list@,
            )[j],
        decreases list@.len() - i,
    {
        let mut j: usize = i + 1;
        while j < list.len()
            invariant
                i < j <= list@.len(),
                forall|m: int| i < m < j ==> views(list@)[i as int] != views(list@)[m],
            decreases list@.len() - j,
        {
            if digest_eq(&list[i], &list[j]) {
                proof {
                    assert(views(list@)[i as int] == views(list@)[j as int]);
                }
                return false;
            }
            j = j + 1;
        }
        i = i + 1;
    }
    true
}

/// Appends copies of the digests in `more` to `list`.
pub fn extend_digests(list: &mut Vec<[u8; 32]>, more: &Vec<[u8; 32]>)
    ensures
        final(list)@ == old(list)@ + more@,
{
    let mut i: usize = 0;
    while i < more.len()
        invariant
            i <= more@.len(),
            list@ == old(list)@ + more@.subrange(0, i as int),
        decreases more@.len() - i,
    {
        list.push(more[i]);
        i = i + 1;
    }
}

/// Whether every digest of `part` occurs in `whole`.
pub fn all_contained(part: &Vec<[u8; 32]>, whole: &Vec<[u8; 32]>) -> (inside: bool)
    ensures
        inside == (forall|j: int|
            0 <= j < views(part@).len() ==> views(whole@).contains(#[trigger] views(part@)[j])),
{
    let mut i: usize = 0;
    while i < part.len()
        invariant
            i <= part@.len(),
            forall|j: int| 0 <= j < i ==> views(whole@).contains(#[trigger] views(part@)[j]),
        decreases part@.len() - i,
    {
        if !contains_digest(whole, &part[i]) {
            proof {
                assert(!views(whole@).contains(views(part@)[i as int]));
            }
            return false;
        }
        i = i + 1;
    }
    true
}

/// The nullifiers that a list of transactions has published, in order.
pub fn inputs_of(transactions: &Vec<Transaction>) -> (nullifiers: Vec<Nullifier>)
    ensures
        views(nullifiers@) == published_inputs(transaction_views(transactions@)),
{
    let mut nullifiers: Vec<Nullifier> = Vec::new();
    let mut i: usize = 0;
    while i < transactions.len()
        invariant
            i <= transactions@.len(),
            views(nullifiers@) == published_inputs(
                transaction_views(transactions@.subrange(0, i as int)),
            ),
        decreases transactions@.len() - i,
    {
        extend_digests(&mut nullifiers, &transactions[i].input_nullifiers);
        i = i + 1;
        proof {
            let done = transaction_views(transactions@.subrange(0, i - 1));
            let next = transaction_views(transactions@.subrange(0, i as int));
            assert(next.drop_last() =~= done);
        }
    }
    proof {
        assert(transactions@.subrange(0, i as int) =~= transactions@);
    }
    nullifiers
}

impl Ledger {
    /// The lasting invariant of the ledger, on its contents.
    pub open spec fn wf(&self) -> bool {
        well_formed(self@)
    }

    /// A ledger on which nothing has been published.
    pub fn new() -> (l: Ledger)
        ensures
            l.wf(),
            l@.commitments.len() == 0,
            l@.nullifiers.len() == 0,
            l@.transactions.len() == 0,
    {
        let l = Ledger {
            commitments: Vec::new(),
            nullifiers: Vec::new(),
            transactions: Vec::new(),
        };
        proof {
            assert(l@.nullifiers =~= published_inputs(l@.transactions));
        }
        l
    }

    /// The published commitments, oldest first.
    pub fn commitments(&self) -> (list: &Vec<Commitment>)
        ensures
            views(list@) == self@.commitments,
    {
        &self.commitments
    }

    /// The published nullifiers, oldest first.
    pub fn nullifiers(&self) -> (list: &Vec<Nullifier>)
        ensures
            views(list@) == self@.nullifiers,
    {
        &self.nullifiers
    }

    /// The admitted transactions, oldest first.
    pub fn transactions(&self) -> (list: &Vec<Transaction>)
        ensures
            transaction_views(list@) == self@.transactions,
    {
        &self.transactions
    }

    /// Whether a commitment is published.
    pub fn is_published(&self, commitment: &Commitment) -> (found: bool)
        ensures
            found == self@.commitments.contains(commitment@),
    {
        contains_digest(&self.commitments, commitment)
    }

    /// Whether a nullifier is published.
    pub fn is_spent(&self, nullifier: &Nullifier) -> (found: bool)
        ensures
            found == self@.nullifiers.contains(nullifier@),
    {
        contains_digest(&self.nullifiers, nullifier)
    }

    /// Publishes the commitment of a newly created note.  A commitment that
    /// is already published is refused, and the ledger stays as it was.
    pub fn publish(&mut self, commitment: Commitment) -> (r: Result<(), ZkLedgerError>)
        requires
            old(self).wf(),
        ensures
            final(self).wf(),
            extends(final(self)@, old(self)@),
            match publish_outcome(old(self)@, commitment@) {
                Ok(next) => r is Ok && final(self)@ == next,
                Err(e) => r == Err::<(), ZkLedgerError>(e) && final(self)@ == old(self)@,
            },
    {
        if contains_digest(&self.commitments, &commitment) {
            return Err(ZkLedgerError::DuplicateCommitment);
        }
        proof {
            lemma_publish_preserves(self@, commitment@);
        }
        self.commitments.push(commitment);
        proof {
            assert(views(self.commitments@) =~= views(old(self).commitments@).push(commitment@));
        }
        Ok(())
    }

    /// Admits a transaction, or refuses it and leaves the ledger as it was.
    ///
    /// The transaction is shown with its opening, which is checked and not
    /// kept.  The transaction is refused with `InvalidProof` if its proof is
    /// not the one for its nullifiers and commitments, or the opening does
    /// not derive them, or the opening does not balance; else with
    /// `NoteAlreadySpent` if one of its nullifiers is already published or
    /// occurs twice in it; else with `DuplicateCommitment` if one of its
    /// commitments is already published or occurs twice in it.  Otherwise
    /// its nullifiers, its commitments and the transaction itself are
    /// appended, all together.  So every admitted transaction conserves
    /// value.
    pub fn commit(&mut self, tx: Transaction, opening: &Opening) -> (r: Result<
        (),
        ZkLedgerError,
    >)
        requires
            old(self).wf(),
        ensures
            final(self).wf(),
            extends(final(self)@, old(self)@),
            match commit_outcome(old(self)@, tx@, opening.inputs@, opening.outputs@) {
                Ok(next) => r is Ok && final(self)@ == next,
                Err(e) => r == Err::<(), ZkLedgerError>(e) && final(self)@ == old(self)@,
            },
    {
        if !verify(&tx.proof, &tx.input_nullifiers, &tx.output_commitments, opening) {
            return Err(ZkLedgerError::InvalidProof);
        }
        if !distinct_digests(&tx.input_nullifiers) || !disjoint_digests(
            &tx.input_nullifiers,
            &self.nullifiers,
        ) {
            return Err(ZkLedgerError::NoteAlreadySpent);
        }
        if !distinct_digests(&tx.output_commitments) || !disjoint_digests(
            &tx.output_commitments,
            &self.commitments,
        ) {
            return Err(ZkLedgerError::DuplicateCommitment);
        }
        proof {
            lemma_commit_preserves(self@, tx@, opening.inputs@, opening.outputs@);
        }
        extend_digests(&mut self.nullifiers, &tx.input_nullifiers);
        extend_digests(&mut self.commitments, &tx.output_commitments);
        let ghost recorded = tx@;
        self.transactions.push(tx);
        proof {
            assert(views(self.nullifiers@) =~= views(old(self).nullifiers@) + recorded.inputs);
            assert(views(self.commitments@) =~= views(old(self).commitments@) + recorded.outputs);
            assert(transaction_views(self.transactions@) =~= transaction_views(
                old(self).transactions@,
            ).push(recorded));
        }
        Ok(())
    }

    /// Rebuilds a ledger from its three lists, as they were stored, and the
    /// openings of its transactions, which are checked and not kept.
    ///
    /// Succeeds exactly if the lists describe a ledger and every transaction
    /// is accepted with the opening at its index; anything else is refused
    /// with `DecodeError`.
    pub fn restore(
        commitments: Vec<Commitment>,
        nullifiers: Vec<Nullifier>,
        transactions: Vec<Transaction>,
        openings: &Vec<Opening>,
    ) -> (r: Result<Ledger, ZkLedgerError>)
        ensures
            r is Ok <==> opened_by(
                LedgerView {
                    commitments: views(commitments@),
                    nullifiers: views(nullifiers@),
                    transactions: transaction_views(transactions@),
                },
                openings@,
            ),
            r matches Ok(l) ==> {
                &&& l.wf()
                &&& l@.commitments == views(commitments@)
                &&& l@.nullifiers == views(nullifiers@)
                &&& l@.transactions == transaction_views(transactions@)
            },
            r matches Err(e) ==> e is DecodeError,
    {
        if !distinct_digests(&commitments) || !distinct_digests(&nullifiers) {
            return Err(ZkLedgerError::DecodeError);
        }
        let published = inputs_of(&transactions);
        if !same_digests(&nullifiers, &published) {
            return Err(ZkLedgerError::DecodeError);
        }
        if openings.len() != transactions.len() {
            return Err(ZkLedgerError::DecodeError);
        }
        let mut i: usize = 0;
        while i < transactions.len()
            invariant
                i <= transactions@.len(),
                openings@.len() == transactions@.len(),
                forall|k: int|
                    0 <= k < i ==> {
                        let tx = #[trigger] transaction_views(transactions@)[k];
                        &&& accepts(
                            tx.proof,
                            tx.inputs,
                            tx.outputs,
                            openings@[k].inputs@,
                            openings@[k].outputs@,
                        )
                        &&& forall|j: int|
                            0 <= j < tx.outputs.len() ==> views(commitments@).contains(
                                tx.outputs[j],
                            )
                    },
            decreases transactions@.len() - i,
        {
            let tx = &transactions[i];
            proof {
                assert(transaction_views(transactions@)[i as int] == tx@);
            }
            if !verify(&tx.proof, &tx.input_nullifiers, &tx.output_commitments, &openings[i])
                || !all_contained(&tx.output_commitments, &commitments) {
                return Err(ZkLedgerError::DecodeError);
            }
            i = i + 1;
        }
        let l = Ledger { commitments, nullifiers, transactions };
        Ok(l)
    }
}

} // verus!
