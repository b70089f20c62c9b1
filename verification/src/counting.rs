//! The live-count model of an ownership cell.
//!
//! A cell starts with one live handle. Every clone increments the count and
//! every release decrements it; in multi-owner mode each update is an atomic
//! read-modify-write step, so any concurrent execution linearizes into one
//! sequence of events. This module states what the count is after any such
//! sequence, and proves the two laws the handle manager is built on: k
//! clones in single-owner mode leave the count at k + 1, and once every
//! worker's clone has been matched by its release — in whatever order the
//! scheduler interleaved them — the count is back to exactly 1.

use vstd::prelude::*;

verus! {

/// One linearized count update of an ownership cell.
#[derive(Clone, Copy, PartialEq, Eq, Structural, Debug)]
pub enum HandleEvent {
    /// A handle was cloned: the count was atomically incremented.
    Cloned,
    /// A handle was released: the count was atomically decremented.
    Released,
}

/// The live-count after applying `events`, in order, to a cell that starts
/// with one live handle (the original).
pub open spec fn count_after(events: Seq<HandleEvent>) -> int
    decreases events.len(),
{
    if events.len() == 0 {
        1
    } else {
        count_after(events.drop_last()) + match events.last() {
            HandleEvent::Cloned => 1,
            HandleEvent::Released => -1,
        }
    }
}

/// How many of the events are clones.
pub open spec fn clone_count(events: Seq<HandleEvent>) -> int {
    events.filter(|e: HandleEvent| e is Cloned).len() as int
}

/// How many of the events are releases.
pub open spec fn release_count(events: Seq<HandleEvent>) -> int {
    events.filter(|e: HandleEvent| e is Released).len() as int
}

/// A history an actual run can produce while the original handle is held:
/// no prefix releases more handles than existed, so the count never drops
/// below the original's 1.
pub open spec fn valid_history(events: Seq<HandleEvent>) -> bool {
    forall|i: int| 0 <= i <= events.len() ==> count_after(#[trigger] events.take(i)) >= 1
}

/// Law: the count after any event sequence is exactly 1 plus the number of
/// clones minus the number of releases. No update is ever lost or
/// duplicated, so the final count depends only on how many clones and
/// releases happened — never on how the scheduler ordered them.
pub proof fn lemma_count_is_balance(events: Seq<HandleEvent>)
    ensures
        count_after(events) == 1 + clone_count(events) - release_count(events),
    decreases events.len(),
{
    reveal(Seq::filter);
    if events.len() > 0 {
        lemma_count_is_balance(events.drop_last());
        assert(events =~= events.drop_last().push(events.last()));
        events.drop_last().lemma_filter_push(events.last(), |e: HandleEvent| e is Cloned);
        events.drop_last().lemma_filter_push(events.last(), |e: HandleEvent| e is Released);
    }
}

/// Law (single-owner mode): after producing k clones of one original handle
/// and releasing nothing, the count is k + 1.
pub proof fn lemma_k_clones(events: Seq<HandleEvent>, k: int)
    requires
        events.len() == k,
        forall|i: int| 0 <= i < events.len() ==> events[i] is Cloned,
    ensures
        count_after(events) == k + 1,
    decreases k,
{
    if k > 0 {
        lemma_k_clones(events.drop_last(), k - 1);
    }
}

/// Law (multi-owner mode): once every clone has been matched by a release —
/// all workers joined and every temporary handle released — the count is
/// exactly 1: only the original remains. This holds for every number of
/// workers and every interleaving of their atomic updates.
pub proof fn lemma_all_released(events: Seq<HandleEvent>)
    requires
        clone_count(events) == release_count(events),
    ensures
        count_after(events) == 1,
{
    lemma_count_is_balance(events);
}

/// Law (scheduling independence): two runs whose schedulers interleaved the
/// same numbers of clones and releases differently end at the same count.
pub proof fn lemma_order_irrelevant(a: Seq<HandleEvent>, b: Seq<HandleEvent>)
    requires
        clone_count(a) == clone_count(b),
        release_count(a) == release_count(b),
    ensures
        count_after(a) == count_after(b),
{
    lemma_count_is_balance(a);
    lemma_count_is_balance(b);
}

/// Replays a linearized event history against the count register of a cell
/// that starts with one live handle. Returns the final count, or `None`
/// exactly when the history is not one a run holding its original handle
/// could produce (some prefix would drop the count below 1).
pub fn replay_count(events: &Vec<HandleEvent>) -> (r: Option<usize>)
    requires
        events@.len() < usize::MAX,
    ensures
        match r {
            Some(c) => valid_history(events@) && c == count_after(events@),
            None => !valid_history(events@),
        },
{
    let ghost all = events@;
    let mut count: usize = 1;
    let mut i: usize = 0;
    while i < events.len()
        invariant
            i <= events@.len(),
            events@.len() < usize::MAX,
            count == count_after(events@.take(i as int)),
            count <= 1 + i,
            forall|j: int| 0 <= j <= i ==> count_after(#[trigger] events@.take(j)) >= 1,
        decreases events@.len() - i,
    {
        let e = events[i];
        proof {
            assert(events@.take(i + 1).drop_last() =~= events@.take(i as int));
            assert(events@.take(i + 1).last() == events@[i as int]);
        }
        match e {
            HandleEvent::Cloned => {
                count = count + 1;
            },
            HandleEvent::Released => {
                if count == 1 {
                    proof {
                        assert(count_after(events@.take(i + 1)) == 0);
                    }
                    return None;
                }
                count = count - 1;
            },
        }
        i = i + 1;
    }
    proof {
        assert(events@.take(events@.len() as int) =~= events@);
    }
    Some(count)
}

} // verus!
