use vstd::prelude::*;
use crate::error::Error;
use crate::job::{
    committee_of_epoch, committee_of_slot, epoch_of_slot, epoch_to_sync_committee_id,
    slot_to_epoch_id, slot_to_sync_committee_id, JobSchema,
};
use crate::status::{on_path, rank, JobStatus, JobType};
use crate::store::DatabaseManager;

verus! {

/// The sync committee whose period the job's update belongs to.
pub open spec fn job_committee(j: JobSchema) -> u64 {
    match j.job_type {
        JobType::SyncCommitteeUpdate => committee_of_slot(j.slot),
        JobType::EpochBatchUpdate => committee_of_epoch(j.batch_range_begin_epoch),
        JobType::EpochUpdate => committee_of_epoch(epoch_of_slot(j.slot)),
    }
}

/// A committee update that has not reached settlement yet.
pub open spec fn committee_pending(s: JobSchema) -> bool {
    &&& s.job_type == JobType::SyncCommitteeUpdate
    &&& on_path(s.job_status)
    &&& rank(s.job_status) < rank(JobStatus::ProofVerifyCalledOnchain)
}

/// Job `s` must reach settlement before job `b`: a pending committee update
/// goes before the epochs of its own and later periods, and before the
/// committee updates of later periods.
pub open spec fn must_precede(s: JobSchema, b: JobSchema) -> bool {
    &&& committee_pending(s)
    &&& if b.job_type == JobType::SyncCommitteeUpdate {
        job_committee(s) < job_committee(b)
    } else {
        job_committee(s) <= job_committee(b)
    }
}

/// The job at index `i` is ready and nothing must precede it.
pub open spec fn may_broadcast(jobs: Seq<JobSchema>, i: int) -> bool {
    &&& jobs[i].job_status == JobStatus::ReadyToBroadcastOnchain
    &&& forall|k: int| 0 <= k < jobs.len() ==> !must_precede(#[trigger] jobs[k], jobs[i])
}

fn job_committee_of(j: &JobSchema) -> (r: u64)
    ensures
        r == job_committee(*j),
{
    match j.job_type {
        JobType::SyncCommitteeUpdate => slot_to_sync_committee_id(j.slot),
        JobType::EpochBatchUpdate => epoch_to_sync_committee_id(j.batch_range_begin_epoch),
        JobType::EpochUpdate => epoch_to_sync_committee_id(slot_to_epoch_id(j.slot)),
    }
}

fn precedes(s: &JobSchema, b: &JobSchema) -> (r: bool)
    ensures
        r == must_precede(*s, *b),
{
    let pending = s.job_type == JobType::SyncCommitteeUpdate && s.job_status != JobStatus::Error
        && s.job_status != JobStatus::Cancelled && s.job_status.rank() < 9;
    if !pending {
        return false;
    }
    if b.job_type == JobType::SyncCommitteeUpdate {
        job_committee_of(s) < job_committee_of(b)
    } else {
        job_committee_of(s) <= job_committee_of(b)
    }
}

impl DatabaseManager {
    /// Index of the first stored job that may be broadcast now, if any.
    pub fn next_broadcast(&self) -> (r: Option<usize>)
        ensures
            match r {
                Some(i) => i < self.jobs@.len() && may_broadcast(self.jobs@, i as int) && forall|
                    k: int,
                | 0 <= k < i ==> !may_broadcast(self.jobs@, k),
                None => forall|k: int| 0 <= k < self.jobs@.len() ==> !may_broadcast(self.jobs@, k),
            },
    {
        let n = self.jobs.len();
        let mut i: usize = 0;
        while i < n
            invariant
                n == self.jobs@.len(),
                i <= n,
                forall|k: int| 0 <= k < i ==> !may_broadcast(self.jobs@, k),
            decreases n - i,
        {
            if self.jobs[i].job_status == JobStatus::ReadyToBroadcastOnchain {
                let mut blocked = false;
                let mut k: usize = 0;
                while k < n
                    invariant
                        n == self.jobs@.len(),
                        i < n,
                        k <= n,
                        blocked == exists|a: int|
                            0 <= a < k && must_precede(#[trigger] self.jobs@[a], self.jobs@[i as int]),
                    decreases n - k,
                {
                    if precedes(&self.jobs[k], &self.jobs[i]) {
                        blocked = true;
                    }
                    k = k + 1;
                }
                if !blocked {
                    return Some(i);
                }
            }
            i = i + 1;
        }
        None
    }
}

/// Whether settlement's state still matches what the job expects: a batch
/// expects the epoch right before its range as the latest verified one, and
/// fails when settlement already reports an epoch at or past its first epoch.
pub fn check_pre_state(job: &JobSchema, settled_epoch: u64) -> (r: Result<(), Error>)
    ensures
        job.job_type == JobType::EpochBatchUpdate && settled_epoch >= job.batch_range_begin_epoch
            ==> r == Err::<(), Error>(Error::RequiresNewerEpoch(settled_epoch)),
        !(job.job_type == JobType::EpochBatchUpdate && settled_epoch >= job.batch_range_begin_epoch)
            ==> r is Ok,
{
    if job.job_type == JobType::EpochBatchUpdate && settled_epoch >= job.batch_range_begin_epoch {
        Err(Error::RequiresNewerEpoch(settled_epoch))
    } else {
        Ok(())
    }
}

} // verus!
