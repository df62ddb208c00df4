//! Finding the notes that a wallet can still spend.
//!
//! The ledger shows commitments only, so a wallet recognises its notes
//! among candidates that it knows from elsewhere: a candidate counts if it is
//! bound to the wallet's tag, its commitment stands on the ledger, and the
//! nullifier that the wallet's spending key gives that commitment does not.
//! Scanning reads the ledger and never changes it; any stretch of the
//! commitment log can be scanned by itself.

use vstd::prelude::*;
use crate::circuit::{commitments_of, output_commitments, tally, total_value};
use crate::digest::{digest_eq, sha256, views};
use crate::keys::{Wallet, WalletView};
use crate::ledger::{Ledger, LedgerView};
use crate::note::{note_commitment, nullifier_bytes, nullifier_for, Commitment, Note};

verus! {

/// A spendable note together with its place on the ledger.
#[derive(Clone, Copy, Debug, PartialEq, Eq)]
pub struct OwnedNote {
    pub note: Note,
    pub commitment: Commitment,
    /// Index of the commitment in the ledger's commitment log.
    pub position: usize,
}

/// The notes are, in order, the notes behind the ledger's commitments.
pub open spec fn in_step(notes: Seq<Note>, l: LedgerView) -> bool {
    output_commitments(notes) == l.commitments
}

/// A note behind commitment `c` that is bound to the wallet's tag.
pub open spec fn owns(w: WalletView, n: Note, c: Seq<u8>) -> bool {
    n.owner_tag@ == w.public_tag && note_commitment(n) == c
}

/// The nullifier that the wallet's spending key gives commitment `c` stands
/// on the ledger.
pub open spec fn spent(w: WalletView, l: LedgerView, c: Seq<u8>) -> bool {
    l.nullifiers.contains(sha256(nullifier_bytes(w.spending_key, c)))
}

/// Candidate `j` is the first one that the wallet owns behind `c`.
pub open spec fn is_first_owned(w: WalletView, candidates: Seq<Note>, c: Seq<u8>, j: int) -> bool {
    &&& 0 <= j < candidates.len()
    &&& owns(w, candidates[j], c)
    &&& forall|k: int| 0 <= k < j ==> !owns(w, #[trigger] candidates[k], c)
}

/// The first candidate that the wallet owns behind `c`, if there is one.
pub open spec fn find_owned(w: WalletView, candidates: Seq<Note>, c: Seq<u8>) -> Option<Note> {
    if exists|j: int| is_first_owned(w, candidates, c, j) {
        Some(candidates[choose|j: int| is_first_owned(w, candidates, c, j)])
    } else {
        None
    }
}

/// The note that the wallet can still spend at a position of the commitment
/// log, if there is one.
pub open spec fn spendable_at(w: WalletView, l: LedgerView, candidates: Seq<Note>, position: int)
    -> Option<Note> {
    if 0 <= position < l.commitments.len() && !spent(w, l, l.commitments[position]) {
        find_owned(w, candidates, l.commitments[position])
    } else {
        None
    }
}

/// The spendable notes at positions `from` up to, not including, `to`, in
/// the order of the log.
pub open spec fn scan_between(
    w: WalletView,
    l: LedgerView,
    candidates: Seq<Note>,
    from: int,
    to: int,
) -> Seq<(Note, int)>
    decreases to - from,
{
    if to <= from {
        Seq::empty()
    } else {
        let before = scan_between(w, l, candidates, from, to - 1);
        match spendable_at(w, l, candidates, to - 1) {
            Some(n) => before.push((n, to - 1)),
            None => before,
        }
    }
}

/// All spendable notes of a wallet, in the order of the log.
pub open spec fn spendable(w: WalletView, l: LedgerView, candidates: Seq<Note>) -> Seq<(Note, int)> {
    scan_between(w, l, candidates, 0, l.commitments.len() as int)
}

/// The notes of a scan result.
pub open spec fn found_notes(found: Seq<(Note, int)>) -> Seq<Note> {
    found.map_values(|f: (Note, int)| f.0)
}

/// What a wallet can spend: the total value of its spendable notes.
pub open spec fn balance_of(w: WalletView, l: LedgerView, candidates: Seq<Note>) -> int {
    total_value(found_notes(spendable(w, l, candidates)))
}

/// The notes and positions of a list of owned notes.
pub open spec fn owned_views(owned: Seq<OwnedNote>) -> Seq<(Note, int)> {
    owned.map_values(|o: OwnedNote| (o.note, o.position as int))
}

/// Each owned note carries the commitment of its note.
pub open spec fn commitments_match(owned: Seq<OwnedNote>) -> bool {
    forall|k: int|
        0 <= k < owned.len() ==> (#[trigger] owned[k]).commitment@ == note_commitment(owned[k].note)
}

/// A scan can stop anywhere and be taken up again: scanning two adjoining
/// stretches gives the same as scanning them as one.
pub proof fn lemma_scan_restartable(
    w: WalletView,
    l: LedgerView,
    candidates: Seq<Note>,
    from: int,
    mid: int,
    to: int,
)
    requires
        from <= mid <= to,
    ensures
        scan_between(w, l, candidates, from, to) == scan_between(w, l, candidates, from, mid)
            + scan_between(w, l, candidates, mid, to),
    decreases to - mid,
{
    if to > mid {
        lemma_scan_restartable(w, l, candidates, from, mid, to - 1);
    }
}

/// Nothing is found beyond the end of the commitment log.
pub proof fn lemma_scan_stops_at_end(
    w: WalletView,
    l: LedgerView,
    candidates: Seq<Note>,
    from: int,
    to: int,
)
    requires
        l.commitments.len() <= from,
    ensures
        scan_between(w, l, candidates, from, to).len() == 0,
    decreases to - from,
{
    if to > from {
        lemma_scan_stops_at_end(w, l, candidates, from, to - 1);
    }
}

/// Every note that a scan finds is bound to the wallet's tag, sits at its
/// position of the log, and is unspent; and positions rise along the result.
pub proof fn lemma_scan_sound(
    w: WalletView,
    l: LedgerView,
    candidates: Seq<Note>,
    from: int,
    to: int,
)
    requires
        0 <= from,
    ensures
        forall|k: int|
            0 <= k < scan_between(w, l, candidates, from, to).len() ==> {
                let f = #[trigger] scan_between(w, l, candidates, from, to)[k];
                &&& from <= f.1 < to
                &&& f.1 < l.commitments.len()
                &&& owns(w, f.0, l.commitments[f.1])
                &&& !spent(w, l, l.commitments[f.1])
                &&& candidates.contains(f.0)
            },
        forall|j: int, k: int|
            0 <= j < k < scan_between(w, l, candidates, from, to).len() ==> scan_between(
                w,
                l,
                candidates,
                from,
                to,
            )[j].1 < scan_between(w, l, candidates, from, to)[k].1,
    decreases to - from,
{
    if to > from {
        lemma_scan_sound(w, l, candidates, from, to - 1);
        let before = scan_between(w, l, candidates, from, to - 1);
        let all = scan_between(w, l, candidates, from, to);
        assert(forall|k: int| 0 <= k < before.len() ==> all[k] == before[k]);
    }
}

/// The first candidate that the wallet owns behind commitment `c`.
fn first_owned(
    wallet: &Wallet,
    candidates: &Vec<Note>,
    candidate_commitments: &Vec<Commitment>,
    c: &Commitment,
) -> (r: Option<Note>)
    requires
        views(candidate_commitments@) == output_commitments(candidates@),
    ensures
        r == find_owned(wallet@, candidates@, c@),
{
    let tag = wallet.public_tag();
    let mut j: usize = 0;
    while j < candidates.len()
        invariant
            j <= candidates@.len(),
            tag@ == wallet@.public_tag,
            views(candidate_commitments@) == output_commitments(candidates@),
            forall|k: int| 0 <= k < j ==> !owns(wallet@, #[trigger] candidates@[k], c@),
        decreases candidates@.len() - j,
    {
        proof {
            assert(views(candidate_commitments@).len() == candidate_commitments@.len());
            assert(views(candidate_commitments@)[j as int] == note_commitment(
                candidates@[j as int],
            ));
        }
        if digest_eq(&candidates[j].owner_tag, &tag) && digest_eq(&candidate_commitments[j], c) {
            proof {
                assert(is_first_owned(wallet@, candidates@, c@, j as int));
            }
            return Some(candidates[j]);
        }
        j = j + 1;
    }
    None
}

/// Scans the stretch of the commitment log from position `from` up to, not
/// including, position `to`, and returns the notes among `candidates` that
/// the wallet can still spend there, in the order of the log.  Positions
/// beyond the end of the log hold nothing.
pub fn scan_range(
    wallet: &Wallet,
    ledger: &Ledger,
    candidates: &Vec<Note>,
    from: usize,
    to: usize,
) -> (found: Vec<OwnedNote>)
    ensures
        owned_views(found@) == scan_between(wallet@, ledger@, candidates@, from as int, to as int),
        commitments_match(found@),
{
    let candidate_commitments = commitments_of(candidates);
    let key = wallet.spending_key();
    let log = ledger.commitments();
    let end: usize = if to < log.len() {
        to
    } else {
        log.len()
    };
    let mut found: Vec<OwnedNote> = Vec::new();
    let mut p: usize = from;
    if from >= end {
        proof {
            if from < to {
                lemma_scan_stops_at_end(wallet@, ledger@, candidates@, from as int, to as int);
            }
        }
        return found;
    }
    while p < end
        invariant
            from <= p <= end <= to,
            end <= log@.len(),
            views(log@) == ledger@.commitments,
            key@ == wallet@.spending_key,
            views(candidate_commitments@) == output_commitments(candidates@),
            owned_views(found@) == scan_between(
                wallet@,
                ledger@,
                candidates@,
                from as int,
                p as int,
            ),
            commitments_match(found@),
        decreases end - p,
    {
        let c: Commitment = log[p];
        let nullifier = nullifier_for(&c, &key);
        if !ledger.is_spent(&nullifier) {
            match first_owned(wallet, candidates, &candidate_commitments, &c) {
                Some(note) => {
                    found.push(OwnedNote { note, commitment: c, position: p });
                },
                None => {},
            }
        }
        p = p + 1;
    }
    proof {
        if end < to {
            lemma_scan_restartable(
                wallet@,
                ledger@,
                candidates@,
                from as int,
                end as int,
                to as int,
            );
            lemma_scan_stops_at_end(wallet@, ledger@, candidates@, end as int, to as int);
        }
    }
    found
}

/// Scans the whole commitment log for the notes among `candidates` that the
/// wallet can still spend.
pub fn scan(wallet: &Wallet, ledger: &Ledger, candidates: &Vec<Note>) -> (found: Vec<OwnedNote>)
    ensures
        owned_views(found@) == spendable(wallet@, ledger@, candidates@),
        commitments_match(found@),
{
    let log = ledger.commitments();
    let n: usize = log.len();
    scan_range(wallet, ledger, candidates, 0, n)
}

/// The notes of a list of owned notes.
pub fn notes_found(found: &Vec<OwnedNote>) -> (notes: Vec<Note>)
    ensures
        notes@ == found_notes(owned_views(found@)),
{
    let mut notes: Vec<Note> = Vec::new();
    let mut i: usize = 0;
    while i < found.len()
        invariant
            i <= found@.len(),
            notes@.len() == i,
            forall|k: int| 0 <= k < i ==> notes@[k] == found@[k].note,
        decreases found@.len() - i,
    {
        notes.push(found[i].note);
        i = i + 1;
    }
    notes
}

/// The balance of a wallet: the total value of the notes that it can still
/// spend, or nothing if that total is more than a `u64` can hold.
pub fn balance(wallet: &Wallet, ledger: &Ledger, candidates: &Vec<Note>) -> (r: Option<u64>)
    ensures
        match r {
            Some(b) => b == balance_of(wallet@, ledger@, candidates@),
            None => balance_of(wallet@, ledger@, candidates@) > u64::MAX,
        },
{
    let found = scan(wallet, ledger, candidates);
    let notes = notes_found(&found);
    let (_, total) = tally(&notes);
    if total <= u64::MAX as u128 {
        Some(total as u64)
    } else {
        None
    }
}

} // verus!
