use vstd::prelude::*;
use crate::constants::{EPOCHS_PER_SYNC_COMMITTEE, SLOTS_PER_EPOCH, SLOTS_PER_SYNC_COMMITTEE};
use crate::status::{on_path, rank, AtlanticJobType, JobStatus, JobType};

verus! {

/// Epoch that contains the slot.
pub open spec fn epoch_of_slot(slot: u64) -> u64 {
    slot / SLOTS_PER_EPOCH
}

/// Sync-committee period that contains the slot.
pub open spec fn committee_of_slot(slot: u64) -> u64 {
    slot / SLOTS_PER_SYNC_COMMITTEE
}

/// Sync-committee period that contains the epoch.
pub open spec fn committee_of_epoch(epoch: u64) -> u64 {
    epoch / EPOCHS_PER_SYNC_COMMITTEE
}

/// Epoch that contains the slot.
pub fn slot_to_epoch_id(slot: u64) -> (r: u64)
    ensures
        r == epoch_of_slot(slot),
{
    slot / SLOTS_PER_EPOCH
}

/// Sync-committee period that contains the slot.
pub fn slot_to_sync_committee_id(slot: u64) -> (r: u64)
    ensures
        r == committee_of_slot(slot),
{
    slot / SLOTS_PER_SYNC_COMMITTEE
}

/// Sync-committee period that contains the epoch.
pub fn epoch_to_sync_committee_id(epoch: u64) -> (r: u64)
    ensures
        r == committee_of_epoch(epoch),
{
    epoch / EPOCHS_PER_SYNC_COMMITTEE
}

/// Shape rules shared by a new job and a stored row: a positive slot, epoch
/// aligned for epoch kinds, and for a batch an ordered range inside the
/// sync-committee period of its slot.
pub open spec fn shape_ok(job_type: JobType, slot: u64, begin: u64, end: u64) -> bool {
    &&& slot > 0
    &&& (job_type != JobType::SyncCommitteeUpdate ==> slot % SLOTS_PER_EPOCH == 0)
    &&& (job_type == JobType::EpochBatchUpdate ==> {
        &&& begin <= end
        &&& committee_of_epoch(begin) == committee_of_epoch(epoch_of_slot(slot))
        &&& committee_of_epoch(end) == committee_of_epoch(epoch_of_slot(slot))
    })
}

/// A job as the control loop creates it.
#[derive(Debug)]
pub struct Job {
    pub job_id: u128,
    pub job_type: JobType,
    pub job_status: JobStatus,
    pub slot: u64,
    pub batch_range_begin_epoch: Option<u64>,
    pub batch_range_end_epoch: Option<u64>,
}

impl Job {
    /// The job obeys the data model: a fresh job, a range exactly for batches.
    pub open spec fn wf(&self) -> bool {
        &&& self.job_status == JobStatus::Created
        &&& (self.job_type == JobType::EpochBatchUpdate <==> self.batch_range_begin_epoch.is_some())
        &&& (self.job_type == JobType::EpochBatchUpdate <==> self.batch_range_end_epoch.is_some())
        &&& shape_ok(
            self.job_type,
            self.slot,
            self.range_begin(),
            self.range_end(),
        )
    }

    pub open spec fn range_begin(&self) -> u64 {
        match self.batch_range_begin_epoch {
            Some(b) => b,
            None => 0,
        }
    }

    pub open spec fn range_end(&self) -> u64 {
        match self.batch_range_end_epoch {
            Some(e) => e,
            None => 0,
        }
    }

    /// Whether the job obeys the data model.
    pub fn is_well_formed(&self) -> (r: bool)
        ensures
            r == self.wf(),
    {
        if self.job_status != JobStatus::Created || self.slot == 0 {
            return false;
        }
        if self.job_type != JobType::SyncCommitteeUpdate && self.slot % SLOTS_PER_EPOCH != 0 {
            return false;
        }
        match (self.batch_range_begin_epoch, self.batch_range_end_epoch) {
            (Some(b), Some(e)) => {
                let c = epoch_to_sync_committee_id(slot_to_epoch_id(self.slot));
                self.job_type == JobType::EpochBatchUpdate && b <= e
                    && epoch_to_sync_committee_id(b) == c && epoch_to_sync_committee_id(e) == c
            },
            (None, None) => self.job_type != JobType::EpochBatchUpdate,
            _ => false,
        }
    }
}

/// A stored job row.
#[derive(Debug)]
pub struct JobSchema {
    pub job_uuid: u128,
    pub job_status: JobStatus,
    pub slot: u64,
    pub batch_range_begin_epoch: u64,
    pub batch_range_end_epoch: u64,
    pub job_type: JobType,
    pub atlantic_proof_generate_batch_id: Option<String>,
    pub atlantic_proof_wrapper_batch_id: Option<String>,
    pub tx_hash: Option<String>,
    pub retries: u64,
}

/// Row rules: the shape rules, a prover id recorded before the status that
/// relies on it, and a transaction hash present exactly from the on-chain call on.
pub open spec fn row_wf(j: JobSchema) -> bool {
    &&& shape_ok(j.job_type, j.slot, j.batch_range_begin_epoch, j.batch_range_end_epoch)
    &&& (j.job_type != JobType::EpochBatchUpdate ==> j.batch_range_begin_epoch == 0
        && j.batch_range_end_epoch == 0)
    &&& (on_path(j.job_status) && j.atlantic_proof_generate_batch_id.is_none() ==> rank(
        j.job_status,
    ) <= rank(JobStatus::PieGenerated))
    &&& (on_path(j.job_status) && j.atlantic_proof_wrapper_batch_id.is_none() ==> rank(
        j.job_status,
    ) <= rank(JobStatus::OffchainProofRetrieved))
    &&& (on_path(j.job_status) ==> (j.tx_hash.is_some() <==> rank(j.job_status) >= rank(
        JobStatus::ProofVerifyCalledOnchain,
    )))
}

/// The row a new job is stored as.
pub open spec fn row_of_job(job: Job) -> JobSchema {
    JobSchema {
        job_uuid: job.job_id,
        job_status: job.job_status,
        slot: job.slot,
        batch_range_begin_epoch: job.range_begin(),
        batch_range_end_epoch: job.range_end(),
        job_type: job.job_type,
        atlantic_proof_generate_batch_id: None,
        atlantic_proof_wrapper_batch_id: None,
        tx_hash: None,
        retries: 0,
    }
}

/// The row with another status.
pub open spec fn with_status(j: JobSchema, s: JobStatus) -> JobSchema {
    JobSchema { job_status: s, ..j }
}

/// The row with a prover id recorded.
pub open spec fn with_query_id(j: JobSchema, kind: AtlanticJobType, id: String) -> JobSchema {
    match kind {
        AtlanticJobType::ProofGeneration => JobSchema {
            atlantic_proof_generate_batch_id: Some(id),
            ..j
        },
        AtlanticJobType::ProofWrapping => JobSchema { atlantic_proof_wrapper_batch_id: Some(id), ..j },
    }
}

/// The prover id of the given kind, if recorded.
pub open spec fn query_id(j: JobSchema, kind: AtlanticJobType) -> Option<String> {
    match kind {
        AtlanticJobType::ProofGeneration => j.atlantic_proof_generate_batch_id,
        AtlanticJobType::ProofWrapping => j.atlantic_proof_wrapper_batch_id,
    }
}

pub fn copy_text(o: &Option<String>) -> (r: Option<String>)
    ensures
        r == *o,
{
    match o {
        Some(s) => Some(s.clone()),
        None => None,
    }
}

impl JobSchema {
    /// The row stored for a new job.
    pub fn from_job(job: &Job) -> (r: JobSchema)
        ensures
            r == row_of_job(*job),
    {
        JobSchema {
            job_uuid: job.job_id,
            job_status: job.job_status,
            slot: job.slot,
            batch_range_begin_epoch: match job.batch_range_begin_epoch {
                Some(b) => b,
                None => 0,
            },
            batch_range_end_epoch: match job.batch_range_end_epoch {
                Some(e) => e,
                None => 0,
            },
            job_type: job.job_type,
            atlantic_proof_generate_batch_id: None,
            atlantic_proof_wrapper_batch_id: None,
            tx_hash: None,
            retries: 0,
        }
    }

    /// A field-by-field copy of the row.
    pub fn copy(&self) -> (r: JobSchema)
        ensures
            r == *self,
    {
        JobSchema {
            job_uuid: self.job_uuid,
            job_status: self.job_status,
            slot: self.slot,
            batch_range_begin_epoch: self.batch_range_begin_epoch,
            batch_range_end_epoch: self.batch_range_end_epoch,
            job_type: self.job_type,
            atlantic_proof_generate_batch_id: copy_text(&self.atlantic_proof_generate_batch_id),
            atlantic_proof_wrapper_batch_id: copy_text(&self.atlantic_proof_wrapper_batch_id),
            tx_hash: copy_text(&self.tx_hash),
            retries: self.retries,
        }
    }

    /// Whether the row obeys the row rules.
    pub fn is_well_formed(&self) -> (r: bool)
        ensures
            r == row_wf(*self),
    {
        if self.slot == 0 {
            return false;
        }
        if self.job_type != JobType::SyncCommitteeUpdate && self.slot % SLOTS_PER_EPOCH != 0 {
            return false;
        }
        if self.job_type == JobType::EpochBatchUpdate {
            let c = epoch_to_sync_committee_id(slot_to_epoch_id(self.slot));
            if !(self.batch_range_begin_epoch <= self.batch_range_end_epoch
                && epoch_to_sync_committee_id(self.batch_range_begin_epoch) == c
                && epoch_to_sync_committee_id(self.batch_range_end_epoch) == c) {
                return false;
            }
        } else if self.batch_range_begin_epoch != 0 || self.batch_range_end_epoch != 0 {
            return false;
        }
        let s = self.job_status;
        if s == JobStatus::Error || s == JobStatus::Cancelled {
            return true;
        }
        let r = s.rank();
        (self.atlantic_proof_generate_batch_id.is_some() || r <= 2)
            && (self.atlantic_proof_wrapper_batch_id.is_some() || r <= 4)
            && (self.tx_hash.is_some() == (r >= 9))
    }
}

} // verus!
