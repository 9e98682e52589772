//! The slot-tracking and resynchronization state machine.
//!
//! The tracker owns the cursor `last_slot` and the set of slots already
//! processed in this run. A poll pass enumerates every slot of
//! `(last_slot, current_slot]` in ascending order, skipping seen slots;
//! each successfully processed slot is recorded; a fetch error naming a
//! skipped or cleaned-up slot with a parsable floor moves the cursor to
//! that floor and aborts the pass; when the pass ends the cursor
//! advances to the tip unless a resynchronization already moved it.
//! The caller performs the fetching, proving and persisting between the
//! steps; every decision is taken here.

use vstd::prelude::*;
use std::collections::HashSet;
use crate::resync::{is_resync_message, resync_target, spec_is_resync, spec_resync_target};

verus! {

broadcast use vstd::std_specs::hash::group_hash_axioms;

/// The slots of `(lo, hi]` not in `seen`, in ascending order.
pub open spec fn unseen_range(seen: Set<u64>, lo: int, hi: int) -> Seq<u64>
    decreases hi - lo,
{
    if lo >= hi {
        Seq::empty()
    } else if seen.contains((lo + 1) as u64) {
        unseen_range(seen, lo + 1, hi)
    } else {
        seq![(lo + 1) as u64] + unseen_range(seen, lo + 1, hi)
    }
}

/// Law (plan shape): a pass plans exactly the unseen slots of
/// `(lo, hi]`, each once, in strictly ascending order — so no slot at
/// or below the cursor is ever planned, no seen slot is fetched twice,
/// and no unseen slot of the range is passed over.
pub proof fn lemma_plan_shape(seen: Set<u64>, lo: int, hi: int)
    requires
        0 <= lo <= hi <= u64::MAX,
    ensures
        forall|k: int|
            0 <= k < unseen_range(seen, lo, hi).len() ==> lo < #[trigger] unseen_range(
                seen,
                lo,
                hi,
            )[k] <= hi && !seen.contains(unseen_range(seen, lo, hi)[k]),
        forall|k1: int, k2: int|
            0 <= k1 < k2 < unseen_range(seen, lo, hi).len() ==> #[trigger] unseen_range(
                seen,
                lo,
                hi,
            )[k1] < #[trigger] unseen_range(seen, lo, hi)[k2],
        forall|s: u64|
            lo < s <= hi && !seen.contains(s) ==> unseen_range(seen, lo, hi).contains(s),
    decreases hi - lo,
{
    if lo < hi {
        lemma_plan_shape(seen, lo + 1, hi);
        let whole = unseen_range(seen, lo, hi);
        let rest = unseen_range(seen, lo + 1, hi);
        if seen.contains((lo + 1) as u64) {
            assert(forall|s: u64|
                lo < s <= hi && !seen.contains(s) ==> rest.contains(s));
        } else {
            assert(whole[0] == (lo + 1) as u64);
            assert(forall|k: int| 1 <= k < whole.len() ==> whole[k] == rest[k - 1]);
            assert(forall|s: u64| lo + 1 < s <= hi && !seen.contains(s) ==> rest.contains(s));
            assert(forall|s: u64|
                lo < s <= hi && !seen.contains(s) ==> whole.contains(s)) by {
                assert(forall|s: u64|
                    lo + 1 < s <= hi && !seen.contains(s) ==> {
                        let k = choose|k: int| 0 <= k < rest.len() && rest[k] == s;
                        whole[k + 1] == s && 0 <= k + 1 < whole.len()
                    });
            }
        }
    }
}

/// The seen set after recording every slot of a plan, in order.
pub open spec fn record_all(seen: Set<u64>, plan: Seq<u64>) -> Set<u64>
    decreases plan.len(),
{
    if plan.len() == 0 {
        seen
    } else {
        record_all(seen.insert(plan[0]), plan.drop_first())
    }
}

/// The plan does not depend on slots outside `(lo, hi]`.
proof fn lemma_unseen_range_congruence(s1: Set<u64>, s2: Set<u64>, lo: int, hi: int)
    requires
        0 <= lo <= hi <= u64::MAX,
        forall|x: u64| lo < x <= hi ==> (s1.contains(x) == s2.contains(x)),
    ensures
        unseen_range(s1, lo, hi) == unseen_range(s2, lo, hi),
    decreases hi - lo,
{
    if lo < hi {
        lemma_unseen_range_congruence(s1, s2, lo + 1, hi);
        assert(s1.contains((lo + 1) as u64) == s2.contains((lo + 1) as u64));
    }
}

/// Law (pass completeness): when every planned slot of a pass is
/// fetched and recorded, the seen set afterwards holds exactly the old
/// seen slots together with the whole of `(lo, hi]` — every slot of the
/// range is accounted for.
pub proof fn lemma_pass_completeness(seen: Set<u64>, lo: int, hi: int)
    requires
        0 <= lo <= hi <= u64::MAX,
    ensures
        forall|x: u64|
            #[trigger] record_all(seen, unseen_range(seen, lo, hi)).contains(x) <==> (
            seen.contains(x) || (lo < x <= hi)),
    decreases hi - lo,
{
    if lo < hi {
        let s: u64 = (lo + 1) as u64;
        let whole = unseen_range(seen, lo, hi);
        if seen.contains(s) {
            lemma_pass_completeness(seen, lo + 1, hi);
            assert(whole == unseen_range(seen, lo + 1, hi));
            assert forall|x: u64|
                #[trigger] record_all(seen, whole).contains(x) <==> (seen.contains(x) || (lo < x
                    <= hi)) by {
                assert(record_all(seen, unseen_range(seen, lo + 1, hi)).contains(x) <==> (
                seen.contains(x) || (lo + 1 < x <= hi)));
            }
        } else {
            let seen1 = seen.insert(s);
            lemma_unseen_range_congruence(seen, seen1, lo + 1, hi);
            lemma_pass_completeness(seen1, lo + 1, hi);
            let rest = unseen_range(seen, lo + 1, hi);
            assert(whole == seq![s] + rest);
            assert(whole[0] == s);
            assert(whole.drop_first() =~= rest);
            assert(record_all(seen, whole) == record_all(seen1, unseen_range(seen1, lo + 1, hi)));
            assert forall|x: u64|
                #[trigger] record_all(seen, whole).contains(x) <==> (seen.contains(x) || (lo < x
                    <= hi)) by {
                assert(record_all(seen1, unseen_range(seen1, lo + 1, hi)).contains(x) <==> (
                seen1.contains(x) || (lo + 1 < x <= hi)));
            }
        }
    }
}

/// What the tracker answers to a failed fetch: abort the pass because
/// the cursor moved to a node-reported floor, or log and go on with the
/// next slot.
#[derive(Debug, PartialEq, Eq, Structural)]
pub enum FetchErrorAction {
    Resync(u64),
    Continue,
}

/// The polling state machine: the cursor, the slots seen in this run,
/// and whether a resynchronization moved the cursor in the running pass.
pub struct ChainTracker {
    last_slot: u64,
    seen: HashSet<u64>,
    resynced: bool,
}

impl ChainTracker {
    /// The cursor: every slot at or below it is settled.
    pub closed spec fn last(&self) -> u64 {
        self.last_slot
    }

    /// The slots processed in this run.
    pub closed spec fn seen_slots(&self) -> Set<u64> {
        self.seen@
    }

    /// A resynchronization moved the cursor in the running pass.
    pub closed spec fn resync_pending(&self) -> bool {
        self.resynced
    }

    /// A fresh tracker resumes from slot 0 with nothing seen.
    pub fn new() -> (t: ChainTracker)
        ensures
            t.last() == 0,
            t.seen_slots() == Set::<u64>::empty(),
            !t.resync_pending(),
    {
        ChainTracker { last_slot: 0, seen: HashSet::new(), resynced: false }
    }

    /// The cursor's value.
    pub fn current_last(&self) -> (r: u64)
        ensures
            r == self.last(),
    {
        self.last_slot
    }

    /// Whether a slot was already processed in this run.
    pub fn is_seen(&self, slot: u64) -> (r: bool)
        ensures
            r == self.seen_slots().contains(slot),
    {
        self.seen.contains(&slot)
    }

    /// Whether the tip has moved past the cursor; when it has not, the
    /// caller sleeps one interval and polls again.
    pub fn should_enumerate(&self, current_slot: u64) -> (r: bool)
        ensures
            r == (current_slot > self.last()),
    {
        current_slot > self.last_slot
    }

    /// Opens a pass: the slots to fetch, in ascending order — every
    /// slot of `(last, current]` not yet seen. Clears the
    /// resynchronization note of any earlier pass.
    pub fn start_pass(&mut self, current_slot: u64) -> (plan: Vec<u64>)
        ensures
            plan@ == unseen_range(
                old(self).seen_slots(),
                old(self).last() as int,
                current_slot as int,
            ),
            final(self).last() == old(self).last(),
            final(self).seen_slots() == old(self).seen_slots(),
            !final(self).resync_pending(),
    {
        self.resynced = false;
        let mut plan: Vec<u64> = Vec::new();
        if current_slot <= self.last_slot {
            return plan;
        }
        let ghost lo = self.last_slot as int;
        let ghost hi = current_slot as int;
        let mut s: u64 = self.last_slot;
        while s < current_slot
            invariant
                self.last_slot <= s <= current_slot,
                lo == self.last_slot as int,
                hi == current_slot as int,
                self.seen@ == old(self).seen_slots(),
                self.last_slot == old(self).last(),
                self.resynced == false,
                unseen_range(self.seen@, lo, hi) == plan@ + unseen_range(self.seen@, s as int, hi),
            decreases current_slot - s,
        {
            let cand: u64 = s + 1;
            let ghost prefix = plan@;
            if !self.seen.contains(&cand) {
                plan.push(cand);
                proof {
                    assert(prefix.push(cand) + unseen_range(self.seen@, cand as int, hi) =~= prefix
                        + (seq![cand] + unseen_range(self.seen@, cand as int, hi)));
                }
            }
            s = cand;
        }
        proof {
            assert(plan@ + unseen_range(self.seen@, s as int, hi) =~= plan@);
        }
        plan
    }

    /// Records a successfully processed slot as seen.
    pub fn record_block(&mut self, slot: u64)
        ensures
            final(self).seen_slots() == old(self).seen_slots().insert(slot),
            final(self).last() == old(self).last(),
            final(self).resync_pending() == old(self).resync_pending(),
    {
        self.seen.insert(slot);
    }

    /// Classifies a failed fetch. When the text names a skipped or
    /// cleaned-up slot and carries a parsable floor, the cursor moves to
    /// exactly that floor, whatever it was before, and the pass is to be
    /// aborted; any other error leaves the tracker as it stands and the
    /// pass goes on with the next slot.
    pub fn on_fetch_error(&mut self, message: &str) -> (r: FetchErrorAction)
        ensures
            match r {
                FetchErrorAction::Resync(f) => spec_is_resync(message@) && spec_resync_target(
                    message@,
                ) == Some(f) && final(self).last() == f && final(self).resync_pending()
                    && final(self).seen_slots() == old(self).seen_slots(),
                FetchErrorAction::Continue => !(spec_is_resync(message@) && spec_resync_target(
                    message@,
                ) is Some) && final(self).last() == old(self).last() && final(self).seen_slots()
                    == old(self).seen_slots() && final(self).resync_pending() == old(
                    self,
                ).resync_pending(),
            },
    {
        if is_resync_message(message) {
            match resync_target(message) {
                Some(f) => {
                    self.last_slot = f;
                    self.resynced = true;
                    FetchErrorAction::Resync(f)
                },
                None => FetchErrorAction::Continue,
            }
        } else {
            FetchErrorAction::Continue
        }
    }

    /// Closes a pass: the cursor advances to the tip, unless a
    /// resynchronization already set a different value in this pass.
    pub fn complete_pass(&mut self, current_slot: u64)
        ensures
            final(self).last() == if old(self).resync_pending() {
                old(self).last()
            } else {
                current_slot
            },
            final(self).seen_slots() == old(self).seen_slots(),
            !final(self).resync_pending(),
    {
        if !self.resynced {
            self.last_slot = current_slot;
        }
        self.resynced = false;
    }
}

} // verus!
