use vstd::prelude::*;
use crate::constants::{MAX_COMMITTEE_SKIPPED_SLOTS, MAX_SKIPPED_SLOTS_RETRY_ATTEMPTS};
use crate::error::Error;

verus! {

/// Walks forward past empty slots during input assembly: each empty slot moves
/// the target one slot on, up to a bound; one more empty slot gives up.
#[derive(Debug)]
pub struct SlotProbe {
    pub start: u64,
    pub slot: u64,
    pub advances: u64,
    pub max_advances: u64,
}

/// The target slot after `n` empty slots in a row, or the slot at which the
/// probe gave up.
pub open spec fn probe_after(start: u64, max_advances: u64, n: nat) -> Result<u64, u64> {
    if n <= max_advances {
        Ok((start + n) as u64)
    } else {
        Err((start + max_advances) as u64)
    }
}

impl SlotProbe {
    pub open spec fn wf(&self) -> bool {
        &&& self.slot == self.start + self.advances
        &&& self.advances <= self.max_advances
        &&& self.start + self.max_advances <= u64::MAX
    }

    /// A probe at `slot` that moves past at most `max_advances` empty slots.
    pub fn new(slot: u64, max_advances: u64) -> (r: SlotProbe)
        requires
            slot + max_advances <= u64::MAX,
        ensures
            r.wf(),
            r.start == slot,
            r.slot == slot,
            r.advances == 0,
            r.max_advances == max_advances,
    {
        SlotProbe { start: slot, slot, advances: 0, max_advances }
    }

    /// A probe for committee input assembly.
    pub fn for_committee(slot: u64) -> (r: SlotProbe)
        requires
            slot + MAX_COMMITTEE_SKIPPED_SLOTS <= u64::MAX,
        ensures
            r.wf(),
            r.start == slot,
            r.slot == slot,
            r.advances == 0,
            r.max_advances == MAX_COMMITTEE_SKIPPED_SLOTS,
    {
        SlotProbe::new(slot, MAX_COMMITTEE_SKIPPED_SLOTS)
    }

    /// A probe for batch input assembly.
    pub fn for_batch(slot: u64) -> (r: SlotProbe)
        requires
            slot + MAX_SKIPPED_SLOTS_RETRY_ATTEMPTS <= u64::MAX,
        ensures
            r.wf(),
            r.start == slot,
            r.slot == slot,
            r.advances == 0,
            r.max_advances == MAX_SKIPPED_SLOTS_RETRY_ATTEMPTS,
    {
        SlotProbe::new(slot, MAX_SKIPPED_SLOTS_RETRY_ATTEMPTS)
    }

    /// The slot found empty: move one slot on, or give up with the empty slot
    /// once the bound is spent.
    pub fn on_empty_slot(&mut self) -> (r: Result<u64, Error>)
        requires
            old(self).wf(),
        ensures
            final(self).wf(),
            final(self).start == old(self).start,
            final(self).max_advances == old(self).max_advances,
            old(self).advances < old(self).max_advances ==> r == Ok::<u64, Error>(
                (old(self).slot + 1) as u64,
            ) && final(self).slot == old(self).slot + 1 && final(self).advances == old(self).advances
                + 1,
            old(self).advances >= old(self).max_advances ==> r == Err::<u64, Error>(
                Error::EmptySlotDetected(old(self).slot),
            ) && *final(self) == *old(self),
    {
        if self.advances < self.max_advances {
            self.slot = self.slot + 1;
            self.advances = self.advances + 1;
            Ok(self.slot)
        } else {
            Err(Error::EmptySlotDetected(self.slot))
        }
    }
}

/// The probe after `n` empty slots in a row, each answered by `on_empty_slot`.
pub open spec fn probe_run(p: SlotProbe, n: nat) -> SlotProbe
    decreases n,
{
    if n == 0 {
        p
    } else {
        let q = probe_run(p, (n - 1) as nat);
        if q.advances < q.max_advances {
            SlotProbe { slot: (q.slot + 1) as u64, advances: (q.advances + 1) as u64, ..q }
        } else {
            q
        }
    }
}

/// Starting from a fresh probe, `n` empty slots in a row move the target by
/// one slot each, up to the bound; past the bound the probe stays at the last
/// slot it reached, and that is the slot it gives up with.
pub proof fn lemma_empty_slot_advancement(start: u64, max_advances: u64, n: nat)
    requires
        start + max_advances <= u64::MAX,
    ensures
        ({
            let q = probe_run(SlotProbe { start, slot: start, advances: 0, max_advances }, n);
            &&& q.wf()
            &&& q.start == start
            &&& q.max_advances == max_advances
            &&& q.advances == if n <= max_advances {
                n as int
            } else {
                max_advances as int
            }
            &&& n <= max_advances ==> q.slot == start + n && probe_after(start, max_advances, n)
                == Ok::<u64, u64>(q.slot)
            &&& n > max_advances ==> q.slot == start + max_advances && probe_after(
                start,
                max_advances,
                n,
            ) == Err::<u64, u64>(q.slot)
        }),
    decreases n,
{
    if n > 0 {
        lemma_empty_slot_advancement(start, max_advances, (n - 1) as nat);
    }
}

} // verus!
