//! Which notes a transfer spends.
//!
//! The policy is largest first: notes are taken in order of falling value,
//! the earlier of two equal notes first, until the amount is covered.  The
//! result is fully determined by the values and the amount.

use vstd::prelude::*;

verus! {

/// The sum of the first `n` values.
pub open spec fn prefix_sum(values: Seq<u64>, n: int) -> int
    decreases n,
{
    if n <= 0 {
        0
    } else {
        prefix_sum(values, n - 1) + values[n - 1]
    }
}

/// The sum of all values.
pub open spec fn sum(values: Seq<u64>) -> int {
    prefix_sum(values, values.len() as int)
}

/// The sum of the values at the picked positions.
pub open spec fn picked_total(values: Seq<u64>, picks: Seq<usize>) -> int
    decreases picks.len(),
{
    if picks.len() == 0 {
        0
    } else {
        picked_total(values, picks.drop_last()) + values[picks.last() as int]
    }
}

/// Position `a` is taken before position `b`: it holds more, or as much and
/// comes earlier.
pub open spec fn precedes(values: Seq<u64>, a: int, b: int) -> bool {
    values[a] > values[b] || (values[a] == values[b] && a < b)
}

/// `picks` lists positions of `values` in the order in which the policy takes
/// them, and skips none: every position left out comes after every position
/// taken.
pub open spec fn largest_first(values: Seq<u64>, picks: Seq<usize>) -> bool {
    &&& forall|k: int| 0 <= k < picks.len() ==> (#[trigger] picks[k]) < values.len()
    &&& forall|j: int, k: int|
        0 <= j < k < picks.len() ==> precedes(values, picks[j] as int, picks[k] as int)
    &&& forall|k: int, i: int|
        #![trigger picks[k], values[i]]
        0 <= k < picks.len() && 0 <= i < values.len() && !picks.contains(i as usize) ==> precedes(
            values,
            picks[k] as int,
            i,
        )
}

/// `picks` is the selection for `amount`: largest first, enough to cover the
/// amount, and not enough without its last pick.
pub open spec fn covers(values: Seq<u64>, amount: int, picks: Seq<usize>) -> bool {
    &&& largest_first(values, picks)
    &&& picked_total(values, picks) >= amount
    &&& picks.len() > 0 ==> picked_total(values, picks.drop_last()) < amount
}

/// The sum of the values at the marked positions among the first `n`.
pub open spec fn marked_sum(values: Seq<u64>, marks: Seq<bool>, n: int) -> int
    decreases n,
{
    if n <= 0 {
        0
    } else {
        marked_sum(values, marks, n - 1) + if marks[n - 1] {
            values[n - 1] as int
        } else {
            0
        }
    }
}

pub proof fn lemma_marked_sum_bound(values: Seq<u64>, marks: Seq<bool>, n: int)
    ensures
        0 <= marked_sum(values, marks, n) <= prefix_sum(values, n),
    decreases n,
{
    if n > 0 {
        lemma_marked_sum_bound(values, marks, n - 1);
    }
}

pub proof fn lemma_marked_sum_none(values: Seq<u64>, marks: Seq<bool>, n: int)
    requires
        forall|i: int| 0 <= i < n ==> !marks[i],
    ensures
        marked_sum(values, marks, n) == 0,
    decreases n,
{
    if n > 0 {
        lemma_marked_sum_none(values, marks, n - 1);
    }
}

pub proof fn lemma_marked_sum_all(values: Seq<u64>, marks: Seq<bool>, n: int)
    requires
        n <= values.len(),
        forall|i: int| 0 <= i < n && !marks[i] ==> values[i] == 0,
    ensures
        marked_sum(values, marks, n) == prefix_sum(values, n),
    decreases n,
{
    if n > 0 {
        lemma_marked_sum_all(values, marks, n - 1);
    }
}

pub proof fn lemma_marked_sum_mark(values: Seq<u64>, marks: Seq<bool>, at: int, n: int)
    requires
        0 <= at < marks.len(),
        !marks[at],
        n <= marks.len(),
    ensures
        marked_sum(values, marks.update(at, true), n) == marked_sum(values, marks, n) + if at < n {
            values[at] as int
        } else {
            0
        },
    decreases n,
{
    if n > 0 {
        lemma_marked_sum_mark(values, marks, at, n - 1);
    }
}

/// Taking one more position adds its value to the total.
pub proof fn lemma_picked_total_push(values: Seq<u64>, picks: Seq<usize>, at: usize)
    ensures
        picked_total(values, picks.push(at)) == picked_total(values, picks) + values[at as int],
{
    assert(picks.push(at).drop_last() =~= picks);
}

/// A total of picked values is never negative.
pub proof fn lemma_picked_total_nonnegative(values: Seq<u64>, picks: Seq<usize>)
    ensures
        picked_total(values, picks) >= 0,
    decreases picks.len(),
{
    if picks.len() > 0 {
        lemma_picked_total_nonnegative(values, picks.drop_last());
    }
}

/// Position `i` is one of the picks.
pub open spec fn is_picked(picks: Seq<usize>, i: int) -> bool {
    exists|k: int| 0 <= k < picks.len() && #[trigger] picks[k] as int == i
}

/// Which of the first `n` positions are picked.
pub open spec fn marks_of(picks: Seq<usize>, n: int) -> Seq<bool> {
    Seq::new(n as nat, |i: int| is_picked(picks, i))
}

/// A largest-first selection takes no position twice.
pub proof fn lemma_selection_has_no_repeats(values: Seq<u64>, picks: Seq<usize>)
    requires
        largest_first(values, picks),
    ensures
        picks.no_duplicates(),
{
    assert forall|i: int, j: int|
        0 <= i < picks.len() && 0 <= j < picks.len() && i != j implies picks[i] != picks[j] by {
        if i < j {
            assert(precedes(values, picks[i] as int, picks[j] as int));
        } else {
            assert(precedes(values, picks[j] as int, picks[i] as int));
        }
    }
}

/// The total of a selection is the sum of the values at the picked
/// positions, each counted once.
pub proof fn lemma_picked_total_is_marked_sum(values: Seq<u64>, picks: Seq<usize>)
    requires
        picks.no_duplicates(),
        forall|k: int| 0 <= k < picks.len() ==> (#[trigger] picks[k]) < values.len(),
    ensures
        picked_total(values, picks) == marked_sum(
            values,
            marks_of(picks, values.len() as int),
            values.len() as int,
        ),
    decreases picks.len(),
{
    let n = values.len() as int;
    if picks.len() == 0 {
        lemma_marked_sum_none(values, marks_of(picks, n), n);
    } else {
        let shorter = picks.drop_last();
        let last = picks.len() - 1;
        let at = picks[last] as int;
        lemma_picked_total_is_marked_sum(values, shorter);
        let before = marks_of(shorter, n);
        assert(marks_of(picks, n) =~= before.update(at, true)) by {
            assert forall|i: int| 0 <= i < n implies marks_of(picks, n)[i] == before.update(
                at,
                true,
            )[i] by {
                if is_picked(picks, i) {
                    let j = choose|j: int| 0 <= j < picks.len() && #[trigger] picks[j] as int == i;
                    if j < shorter.len() {
                        assert(shorter[j] as int == i);
                    }
                } else if is_picked(shorter, i) {
                    let j = choose|j: int|
                        0 <= j < shorter.len() && #[trigger] shorter[j] as int == i;
                    assert(picks[j] as int == i);
                }
            }
        }
        lemma_marked_sum_mark(values, before, at, n);
    }
}

/// A total of picked values does not shrink when more positions are taken.
pub proof fn lemma_picked_total_prefix(values: Seq<u64>, shorter: Seq<usize>, longer: Seq<usize>)
    requires
        shorter.is_prefix_of(longer),
    ensures
        picked_total(values, shorter) <= picked_total(values, longer),
    decreases longer.len(),
{
    if shorter.len() == longer.len() {
        assert(shorter =~= longer);
    } else {
        lemma_picked_total_prefix(values, shorter, longer.drop_last());
    }
}

proof fn lemma_next_pick_agrees(values: Seq<u64>, a: Seq<usize>, b: Seq<usize>, m: int)
    requires
        largest_first(values, a),
        largest_first(values, b),
        0 <= m < a.len(),
        m < b.len(),
        forall|j: int| 0 <= j < m ==> a[j] == b[j],
    ensures
        !precedes(values, a[m] as int, b[m] as int),
{
    let x = a[m];
    if precedes(values, a[m] as int, b[m] as int) && b.contains(x) {
        let p = choose|p: int| 0 <= p < b.len() && b[p] == x;
        if p < m {
            assert(precedes(values, a[p] as int, a[m] as int));
        } else if p > m {
            assert(precedes(values, b[m] as int, b[p] as int));
        }
    }
}

/// Two selections that both go largest first agree as far as both reach.
pub proof fn lemma_largest_first_agree(values: Seq<u64>, a: Seq<usize>, b: Seq<usize>, k: int)
    requires
        largest_first(values, a),
        largest_first(values, b),
        0 <= k <= a.len(),
        k <= b.len(),
    ensures
        forall|j: int| 0 <= j < k ==> a[j] == b[j],
    decreases k,
{
    if k > 0 {
        lemma_largest_first_agree(values, a, b, k - 1);
        let m = k - 1;
        if a[m] != b[m] {
            if precedes(values, a[m] as int, b[m] as int) {
                lemma_next_pick_agrees(values, a, b, m);
            } else {
                lemma_next_pick_agrees(values, b, a, m);
            }
        }
    }
}

/// The selection for an amount is unique: the policy leaves no choice.
pub proof fn lemma_selection_unique(values: Seq<u64>, amount: int, a: Seq<usize>, b: Seq<usize>)
    requires
        covers(values, amount, a),
        covers(values, amount, b),
    ensures
        a == b,
{
    let k = if a.len() <= b.len() {
        a.len() as int
    } else {
        b.len() as int
    };
    lemma_largest_first_agree(values, a, b, k);
    if a.len() < b.len() {
        lemma_picked_total_prefix(values, a, b.drop_last());
    } else if b.len() < a.len() {
        lemma_picked_total_prefix(values, b, a.drop_last());
    }
}

/// The position that the policy takes next among those not yet marked, if
/// one with a positive value is left.
fn next_pick(values: &Vec<u64>, taken: &Vec<bool>) -> (r: Option<usize>)
    requires
        taken@.len() == values@.len(),
    ensures
        match r {
            Some(best) => {
                &&& best < values@.len()
                &&& !taken@[best as int]
                &&& values@[best as int] > 0
                &&& forall|i: int|
                    0 <= i < values@.len() && !taken@[i] && i != best ==> precedes(
                        values@,
                        best as int,
                        i,
                    )
            },
            None => forall|i: int| 0 <= i < values@.len() && !taken@[i] ==> values@[i] == 0,
        },
{
    let mut found: bool = false;
    let mut best: usize = 0;
    let mut i: usize = 0;
    while i < values.len()
        invariant
            i <= values@.len(),
            taken@.len() == values@.len(),
            found ==> best < i && !taken@[best as int] && values@[best as int] > 0,
            found ==> forall|j: int|
                0 <= j < i && !taken@[j] && j != best ==> precedes(values@, best as int, j),
            !found ==> forall|j: int| 0 <= j < i && !taken@[j] ==> values@[j] == 0,
        decreases values@.len() - i,
    {
        if !taken[i] && values[i] > 0 {
            if !found || values[i] > values[best] {
                best = i;
                found = true;
            }
        }
        i = i + 1;
    }
    if found {
        Some(best)
    } else {
        None
    }
}

/// Selects the notes to spend for `amount` from notes with the given values.
///
/// Returns the positions taken, in the order taken, or nothing if all values
/// together do not reach the amount.  No position is taken twice.
pub fn select_notes(values: &Vec<u64>, amount: u64) -> (r: Option<Vec<usize>>)
    ensures
        r is Some <==> sum(values@) >= amount,
        r matches Some(picks) ==> covers(values@, amount as int, picks@),
{
    let n: usize = values.len();
    let mut picks: Vec<usize> = Vec::new();
    if amount == 0 {
        proof {
            lemma_marked_sum_bound(values@, Seq::new(n as nat, |i: int| false), n as int);
        }
        return Some(picks);
    }
    let mut taken: Vec<bool> = Vec::new();
    let mut k: usize = 0;
    while k < n
        invariant
            k <= n,
            taken@.len() == k,
            forall|i: int| 0 <= i < k ==> !taken@[i],
        decreases n - k,
    {
        taken.push(false);
        k = k + 1;
    }
    let mut need: u64 = amount;
    proof {
        lemma_marked_sum_none(values@, taken@, n as int);
    }
    loop
        invariant
            n == values@.len(),
            taken@.len() == n,
            0 < need <= amount,
            forall|i: int| 0 <= i < n ==> (taken@[i] <==> picks@.contains(i as usize)),
            largest_first(values@, picks@),
            picked_total(values@, picks@) + need == amount,
            picked_total(values@, picks@) == marked_sum(values@, taken@, n as int),
        decreases need,
    {
        let best = match next_pick(values, &taken) {
            Some(b) => b,
            None => {
                proof {
                    lemma_marked_sum_all(values@, taken@, n as int);
                }
                return None;
            },
        };
        let ghost old_picks = picks@;
        let ghost old_taken = taken@;
        taken.set(best, true);
        picks.push(best);
        proof {
            lemma_marked_sum_mark(values@, old_taken, best as int, n as int);
            lemma_picked_total_push(values@, old_picks, best);
            assert(picks@.drop_last() =~= old_picks);
            assert forall|k: int, i: int|
                #![trigger picks@[k], values@[i]]
                0 <= k < picks@.len() && 0 <= i < n && !picks@.contains(i as usize) implies precedes(
                values@,
                picks@[k] as int,
                i,
            ) by {
                assert(!taken@[i]);
            }
        }
        if values[best] >= need {
            proof {
                lemma_marked_sum_bound(values@, taken@, n as int);
            }
            return Some(picks);
        }
        need = need - values[best];
    }
}

} // verus!
