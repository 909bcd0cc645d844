use vstd::prelude::*;
use crate::constants::SLOTS_PER_SYNC_COMMITTEE;
use crate::error::Error;
use crate::job::{
    committee_of_slot, copy_text, query_id, row_of_job, row_wf, with_query_id, with_status, Job,
    JobSchema,
};
use crate::status::{may_transition, on_path, rank, terminal, AtlanticJobType, JobStatus, JobType};

verus! {

/// What settlement reports of a verified epoch.
#[derive(Debug)]
pub struct EpochProof {
    pub header_root: [u8; 32],
    pub state_root: [u8; 32],
    pub n_signers: u64,
    pub execution_hash: [u8; 32],
    pub execution_height: u64,
}

/// A verified epoch row.
#[derive(Debug)]
pub struct VerifiedEpoch {
    pub epoch_id: u64,
    pub proof: EpochProof,
}

/// A verified sync-committee row.
#[derive(Debug)]
pub struct VerifiedSyncCommittee {
    pub sync_committee_id: u64,
    pub sync_committee_hash: [u8; 32],
}

/// One step of the inclusion path of an epoch in its batch.
#[derive(Debug)]
pub struct EpochMerklePath {
    pub epoch_id: u64,
    pub path_index: u64,
    pub merkle_path: String,
}

/// The job store: jobs, verified epochs and committees, and epoch Merkle paths.
#[derive(Debug)]
pub struct DatabaseManager {
    pub jobs: Vec<JobSchema>,
    pub verified_epochs: Vec<VerifiedEpoch>,
    pub verified_sync_committees: Vec<VerifiedSyncCommittee>,
    pub merkle_paths: Vec<EpochMerklePath>,
}

/// A batch job that is not yet terminal.
pub open spec fn batch_in_progress(j: JobSchema) -> bool {
    j.job_type == JobType::EpochBatchUpdate && !terminal(j.job_status)
}

/// A sync-committee job that is not yet terminal.
pub open spec fn committee_in_progress(j: JobSchema) -> bool {
    j.job_type == JobType::SyncCommitteeUpdate && !terminal(j.job_status)
}

/// Greatest end epoch over the first `n` rows' batches in progress, 0 if none.
pub open spec fn latest_epoch_in_progress(jobs: Seq<JobSchema>, n: int) -> u64
    decreases n,
{
    if n <= 0 {
        0
    } else {
        let r = latest_epoch_in_progress(jobs, n - 1);
        let j = jobs[n - 1];
        if batch_in_progress(j) && j.batch_range_end_epoch > r {
            j.batch_range_end_epoch
        } else {
            r
        }
    }
}

/// Greatest committee over the first `n` rows' committee jobs in progress, 0 if none.
pub open spec fn latest_committee_in_progress(jobs: Seq<JobSchema>, n: int) -> u64
    decreases n,
{
    if n <= 0 {
        0
    } else {
        let r = latest_committee_in_progress(jobs, n - 1);
        let j = jobs[n - 1];
        if committee_in_progress(j) && committee_of_slot(j.slot) > r {
            committee_of_slot(j.slot)
        } else {
            r
        }
    }
}

/// Number of batches in progress among the first `n` rows.
pub open spec fn count_in_progress(jobs: Seq<JobSchema>, n: int) -> nat
    decreases n,
{
    if n <= 0 {
        0
    } else {
        count_in_progress(jobs, n - 1) + if batch_in_progress(jobs[n - 1]) {
            1nat
        } else {
            0nat
        }
    }
}

/// Number of Merkle path rows of the epoch among the first `n` rows.
pub open spec fn count_paths(paths: Seq<EpochMerklePath>, epoch: u64, n: int) -> nat
    decreases n,
{
    if n <= 0 {
        0
    } else {
        count_paths(paths, epoch, n - 1) + if paths[n - 1].epoch_id == epoch {
            1nat
        } else {
            0nat
        }
    }
}

/// The first `n` rows that have the status, in store order.
pub open spec fn jobs_with_status(jobs: Seq<JobSchema>, s: JobStatus, n: int) -> Seq<JobSchema>
    decreases n,
{
    if n <= 0 {
        Seq::empty()
    } else {
        let r = jobs_with_status(jobs, s, n - 1);
        if jobs[n - 1].job_status == s {
            r.push(jobs[n - 1])
        } else {
            r
        }
    }
}

/// The path steps of the epoch among the first `n` rows, in store order.
pub open spec fn paths_of(paths: Seq<EpochMerklePath>, epoch: u64, n: int) -> Seq<String>
    decreases n,
{
    if n <= 0 {
        Seq::empty()
    } else {
        let r = paths_of(paths, epoch, n - 1);
        if paths[n - 1].epoch_id == epoch {
            r.push(paths[n - 1].merkle_path)
        } else {
            r
        }
    }
}

/// Greatest slot over the first `n` rows whose job is still in progress.
pub open spec fn latest_slot_in_progress(jobs: Seq<JobSchema>, n: int) -> Option<u64>
    decreases n,
{
    if n <= 0 {
        None
    } else {
        let r = latest_slot_in_progress(jobs, n - 1);
        let j = jobs[n - 1];
        if !terminal(j.job_status) {
            match r {
                Some(b) => if j.slot > b {
                    Some(j.slot)
                } else {
                    Some(b)
                },
                None => Some(j.slot),
            }
        } else {
            r
        }
    }
}

/// Rows keep their ids and order, new rows only come at the end, and each
/// existing row's status stays or moves by a lawful change.
pub open spec fn statuses_advance(before: Seq<JobSchema>, after: Seq<JobSchema>) -> bool {
    &&& before.len() <= after.len()
    &&& forall|i: int|
        0 <= i < before.len() ==> (#[trigger] after[i]).job_uuid == before[i].job_uuid && (
        after[i].job_status == before[i].job_status || may_transition(
            before[i].job_status,
            after[i].job_status,
        ))
}

/// Status progress composes: over any run of store operations, each of which
/// advances statuses lawfully, every job's status only moves forward along the
/// path or to an exit, never back.
pub proof fn lemma_statuses_advance_compose(a: Seq<JobSchema>, b: Seq<JobSchema>, c: Seq<JobSchema>)
    requires
        statuses_advance(a, b),
        statuses_advance(b, c),
    ensures
        statuses_advance(a, c),
{
    assert forall|i: int| 0 <= i < a.len() implies (#[trigger] c[i]).job_uuid == a[i].job_uuid && (
    c[i].job_status == a[i].job_status || may_transition(a[i].job_status, c[i].job_status)) by {
        assert(b[i].job_uuid == a[i].job_uuid);
        crate::status::lemma_status_monotonic(a[i].job_status, b[i].job_status, c[i].job_status);
    }
}

/// The status change is lawful and leaves the row well formed.
pub open spec fn status_update_ok(j: JobSchema, s: JobStatus) -> bool {
    may_transition(j.job_status, s) && row_wf(with_status(j, s))
}

/// A batch row that the readiness sweep over `[first, last]` moves on.
pub open spec fn ready_for_sweep(j: JobSchema, first: u64, last: u64) -> bool {
    &&& j.job_type == JobType::EpochBatchUpdate
    &&& j.batch_range_begin_epoch >= first
    &&& j.batch_range_end_epoch <= last
    &&& j.job_status == JobStatus::OffchainComputationFinished
}

pub open spec fn after_sweep(j: JobSchema, first: u64, last: u64) -> JobSchema {
    if ready_for_sweep(j, first, last) {
        with_status(j, JobStatus::ReadyToBroadcastOnchain)
    } else {
        j
    }
}

proof fn lemma_count_paths_prefix(
    a: Seq<EpochMerklePath>,
    b: Seq<EpochMerklePath>,
    epoch: u64,
    n: int,
)
    requires
        a.len() <= b.len(),
        0 <= n <= a.len(),
        forall|i: int| 0 <= i < a.len() ==> a[i] == b[i],
    ensures
        count_paths(a, epoch, n) == count_paths(b, epoch, n),
    decreases n,
{
    if n > 0 {
        lemma_count_paths_prefix(a, b, epoch, n - 1);
    }
}

proof fn lemma_count_paths_grows(s: Seq<EpochMerklePath>, e: u64, i: int, j: int)
    requires
        0 <= i <= j <= s.len(),
    ensures
        count_paths(s, e, i) <= count_paths(s, e, j),
        i < j && s[i].epoch_id == e ==> count_paths(s, e, i) < count_paths(s, e, j),
    decreases j - i,
{
    if i < j {
        lemma_count_paths_grows(s, e, i, j - 1);
        if i < j - 1 {
        } else {
            assert(count_paths(s, e, j) == count_paths(s, e, i) + if s[i].epoch_id == e {
                1nat
            } else {
                0nat
            });
        }
    }
}

/// What a well-formed store guarantees of every row: a job without a
/// generation id has not passed trace generation, a job with a transaction
/// hash has reached the on-chain call (both for jobs on the forward path),
/// each epoch is verified at most once, and no two path rows share an epoch
/// and an index.
pub proof fn lemma_store_invariants(db: DatabaseManager)
    requires
        db.wf(),
    ensures
        forall|i: int|
            0 <= i < db.jobs@.len() && on_path(#[trigger] db.jobs@[i].job_status)
                && db.jobs@[i].atlantic_proof_generate_batch_id is None ==> rank(
                db.jobs@[i].job_status,
            ) <= rank(JobStatus::PieGenerated),
        forall|i: int|
            0 <= i < db.jobs@.len() && on_path(#[trigger] db.jobs@[i].job_status)
                && db.jobs@[i].tx_hash is Some ==> rank(db.jobs@[i].job_status) >= rank(
                JobStatus::ProofVerifyCalledOnchain,
            ),
        forall|i: int, k: int|
            0 <= i < k < db.verified_epochs@.len() ==> #[trigger] db.verified_epochs@[i].epoch_id
                != #[trigger] db.verified_epochs@[k].epoch_id,
        forall|i: int, k: int|
            0 <= i < k < db.merkle_paths@.len() && #[trigger] db.merkle_paths@[i].epoch_id
                == #[trigger] db.merkle_paths@[k].epoch_id ==> db.merkle_paths@[i].path_index
                < db.merkle_paths@[k].path_index,
{
    assert forall|i: int| 0 <= i < db.jobs@.len() implies row_wf(#[trigger] db.jobs@[i]) by {}
    assert forall|i: int, k: int|
        0 <= i < k < db.merkle_paths@.len() && #[trigger] db.merkle_paths@[i].epoch_id
            == #[trigger] db.merkle_paths@[k].epoch_id implies db.merkle_paths@[i].path_index
        < db.merkle_paths@[k].path_index by {
        let e = db.merkle_paths@[i].epoch_id;
        assert(db.merkle_paths@[i].path_index == count_paths(db.merkle_paths@, e, i));
        assert(db.merkle_paths@[k].path_index == count_paths(db.merkle_paths@, e, k));
        lemma_count_paths_grows(db.merkle_paths@, e, i, k);
    }
}

impl DatabaseManager {
    /// Job ids are unique, every row obeys the row rules, verified epochs and
    /// committees are unique by id, and each epoch's Merkle path rows carry
    /// the indices 0, 1, ... in the order they were written.
    pub open spec fn wf(&self) -> bool {
        &&& forall|i: int, k: int|
            0 <= i < k < self.jobs@.len() ==> self.jobs@[i].job_uuid != self.jobs@[k].job_uuid
        &&& forall|i: int| 0 <= i < self.jobs@.len() ==> row_wf(#[trigger] self.jobs@[i])
        &&& forall|i: int, k: int|
            0 <= i < k < self.verified_epochs@.len() ==> self.verified_epochs@[i].epoch_id
                != self.verified_epochs@[k].epoch_id
        &&& forall|i: int, k: int|
            0 <= i < k < self.verified_sync_committees@.len()
                ==> self.verified_sync_committees@[i].sync_committee_id
                != self.verified_sync_committees@[k].sync_committee_id
        &&& forall|i: int|
            0 <= i < self.merkle_paths@.len() ==> (#[trigger] self.merkle_paths@[i]).path_index
                == count_paths(self.merkle_paths@, self.merkle_paths@[i].epoch_id, i)
    }

    pub open spec fn has_job(&self, id: u128) -> bool {
        exists|i: int| 0 <= i < self.jobs@.len() && self.jobs@[i].job_uuid == id
    }

    /// Index of the row of the job.
    pub open spec fn job_index(&self, id: u128) -> int {
        choose|i: int| 0 <= i < self.jobs@.len() && self.jobs@[i].job_uuid == id
    }

    pub open spec fn job_row(&self, id: u128) -> JobSchema {
        self.jobs@[self.job_index(id)]
    }

    /// Number of batch jobs in progress.
    pub open spec fn spec_count_in_progress(&self) -> nat {
        count_in_progress(self.jobs@, self.jobs@.len() as int)
    }

    /// An empty store.
    pub fn new() -> (r: DatabaseManager)
        ensures
            r.wf(),
            r.jobs@.len() == 0,
            r.verified_epochs@.len() == 0,
            r.verified_sync_committees@.len() == 0,
            r.merkle_paths@.len() == 0,
    {
        DatabaseManager {
            jobs: Vec::new(),
            verified_epochs: Vec::new(),
            verified_sync_committees: Vec::new(),
            merkle_paths: Vec::new(),
        }
    }

    /// Position of the job's row.
    pub fn find_job(&self, id: u128) -> (r: Option<usize>)
        requires
            self.wf(),
        ensures
            match r {
                Some(i) => self.has_job(id) && i as int == self.job_index(id) && i < self.jobs@.len(),
                None => !self.has_job(id),
            },
    {
        let mut i: usize = 0;
        while i < self.jobs.len()
            invariant
                i <= self.jobs@.len(),
                self.wf(),
                forall|k: int| 0 <= k < i ==> self.jobs@[k].job_uuid != id,
            decreases self.jobs@.len() - i,
        {
            if self.jobs[i].job_uuid == id {
                assert(self.has_job(id));
                let ghost c = self.job_index(id);
                assert(self.jobs@[c].job_uuid == id);
                assert(c == i) by {
                    if c != i as int {
                        assert(c > i || c < i);
                    }
                }
                return Some(i);
            }
            i = i + 1;
        }
        None
    }

    /// Inserts a new job; fails when its id is taken or it breaks the data model.
    pub fn create_job(&mut self, job: Job) -> (r: Result<(), Error>)
        requires
            old(self).wf(),
        ensures
            final(self).wf(),
            statuses_advance(old(self).jobs@, final(self).jobs@),
            r is Err ==> r->Err_0 is DatabaseError,
            r is Ok <==> (!old(self).has_job(job.job_id) && job.wf()),
            r is Ok ==> final(self).jobs@ == old(self).jobs@.push(row_of_job(job)),
            r is Err ==> final(self).jobs@ == old(self).jobs@,
            final(self).verified_epochs@ == old(self).verified_epochs@,
            final(self).verified_sync_committees@ == old(self).verified_sync_committees@,
            final(self).merkle_paths@ == old(self).merkle_paths@,
    {
        if !job.is_well_formed() {
            return Err(Error::DatabaseError(String::from_str("job breaks the data model")));
        }
        if self.find_job(job.job_id).is_some() {
            return Err(Error::DatabaseError(String::from_str("job id already exists")));
        }
        let row = JobSchema::from_job(&job);
        self.jobs.push(row);
        assert forall|i: int| 0 <= i < self.jobs@.len() implies row_wf(#[trigger] self.jobs@[i]) by {
            if i < old(self).jobs@.len() {
                assert(self.jobs@[i] == old(self).jobs@[i]);
            }
        }
        Ok(())
    }

    /// Puts back a stored row, as read when the daemon restarts; fails when its
    /// id is taken or it breaks the row rules.
    pub fn restore_job(&mut self, row: JobSchema) -> (r: Result<(), Error>)
        requires
            old(self).wf(),
        ensures
            final(self).wf(),
            statuses_advance(old(self).jobs@, final(self).jobs@),
            r is Err ==> r->Err_0 is DatabaseError,
            r is Ok <==> (!old(self).has_job(row.job_uuid) && row_wf(row)),
            r is Ok ==> final(self).jobs@ == old(self).jobs@.push(row),
            r is Err ==> final(self).jobs@ == old(self).jobs@,
            final(self).verified_epochs@ == old(self).verified_epochs@,
            final(self).verified_sync_committees@ == old(self).verified_sync_committees@,
            final(self).merkle_paths@ == old(self).merkle_paths@,
    {
        if !row.is_well_formed() {
            return Err(Error::DatabaseError(String::from_str("row breaks the row rules")));
        }
        if self.find_job(row.job_uuid).is_some() {
            return Err(Error::DatabaseError(String::from_str("job id already exists")));
        }
        self.jobs.push(row);
        assert forall|i: int| 0 <= i < self.jobs@.len() implies row_wf(#[trigger] self.jobs@[i]) by {
            if i < old(self).jobs@.len() {
                assert(self.jobs@[i] == old(self).jobs@[i]);
            }
        }
        Ok(())
    }

    /// Status of the job, if it exists.
    pub fn fetch_job_status(&self, id: u128) -> (r: Option<JobStatus>)
        requires
            self.wf(),
        ensures
            r == (if self.has_job(id) {
                Some(self.job_row(id).job_status)
            } else {
                None
            }),
    {
        match self.find_job(id) {
            Some(i) => Some(self.jobs[i].job_status),
            None => None,
        }
    }

    /// Moves the job to a new status; fails when the job is unknown, the change
    /// is not lawful, or the row would break the row rules.
    pub fn update_job_status(&mut self, id: u128, new_status: JobStatus) -> (r: Result<(), Error>)
        requires
            old(self).wf(),
        ensures
            final(self).wf(),
            statuses_advance(old(self).jobs@, final(self).jobs@),
            r is Err ==> r->Err_0 is DatabaseError,
            r is Ok <==> (old(self).has_job(id) && status_update_ok(old(self).job_row(id), new_status)),
            r is Ok ==> final(self).jobs@ == old(self).jobs@.update(
                old(self).job_index(id),
                with_status(old(self).job_row(id), new_status),
            ),
            r is Err ==> final(self).jobs@ == old(self).jobs@,
            final(self).verified_epochs@ == old(self).verified_epochs@,
            final(self).verified_sync_committees@ == old(self).verified_sync_committees@,
            final(self).merkle_paths@ == old(self).merkle_paths@,
    {
        let i = match self.find_job(id) {
            Some(i) => i,
            None => {
                return Err(Error::DatabaseError(String::from_str("no such job")));
            },
        };
        if !self.jobs[i].job_status.can_transition_to(new_status) {
            return Err(Error::DatabaseError(String::from_str("unlawful status change")));
        }
        let mut row = self.jobs[i].copy();
        row.job_status = new_status;
        if !row.is_well_formed() {
            return Err(Error::DatabaseError(String::from_str("status change breaks the row")));
        }
        self.jobs[i] = row;
        assert forall|a: int| 0 <= a < self.jobs@.len() implies row_wf(#[trigger] self.jobs@[a]) by {
            if a != i as int {
                assert(self.jobs@[a] == old(self).jobs@[a]);
            }
        }
        Ok(())
    }

    /// Records a prover id; recording the same id again changes nothing, a
    /// different one is refused.
    pub fn set_atlantic_job_queryid(
        &mut self,
        id: u128,
        batch_id: String,
        atlantic_job_type: AtlanticJobType,
    ) -> (r: Result<(), Error>)
        requires
            old(self).wf(),
        ensures
            final(self).wf(),
            statuses_advance(old(self).jobs@, final(self).jobs@),
            r is Err ==> r->Err_0 is DatabaseError,
            r is Ok <==> (old(self).has_job(id) && (query_id(old(self).job_row(id), atlantic_job_type)
                is None || query_id(old(self).job_row(id), atlantic_job_type)->0@ == batch_id@)),
            r is Ok ==> final(self).jobs@ == old(self).jobs@.update(
                old(self).job_index(id),
                with_query_id(old(self).job_row(id), atlantic_job_type, batch_id),
            ),
            r is Err ==> final(self).jobs@ == old(self).jobs@,
            final(self).verified_epochs@ == old(self).verified_epochs@,
            final(self).verified_sync_committees@ == old(self).verified_sync_committees@,
            final(self).merkle_paths@ == old(self).merkle_paths@,
    {
        let i = match self.find_job(id) {
            Some(i) => i,
            None => {
                return Err(Error::DatabaseError(String::from_str("no such job")));
            },
        };
        let mut row = self.jobs[i].copy();
        let current = match atlantic_job_type {
            AtlanticJobType::ProofGeneration => copy_text(&row.atlantic_proof_generate_batch_id),
            AtlanticJobType::ProofWrapping => copy_text(&row.atlantic_proof_wrapper_batch_id),
        };
        match current {
            Some(c) => {
                if !(c == batch_id) {
                    return Err(Error::DatabaseError(String::from_str("another prover id is recorded")));
                }
            },
            None => {},
        }
        match atlantic_job_type {
            AtlanticJobType::ProofGeneration => {
                row.atlantic_proof_generate_batch_id = Some(batch_id);
            },
            AtlanticJobType::ProofWrapping => {
                row.atlantic_proof_wrapper_batch_id = Some(batch_id);
            },
        }
        self.jobs[i] = row;
        assert forall|a: int| 0 <= a < self.jobs@.len() implies row_wf(#[trigger] self.jobs@[a]) by {
            if a != i as int {
                assert(self.jobs@[a] == old(self).jobs@[a]);
            }
        }
        Ok(())
    }

    /// Records the settlement transaction of a job ready to broadcast and moves
    /// it to the on-chain call; recording the same hash again changes nothing.
    pub fn set_job_txhash(&mut self, id: u128, txhash: String) -> (r: Result<(), Error>)
        requires
            old(self).wf(),
        ensures
            final(self).wf(),
            statuses_advance(old(self).jobs@, final(self).jobs@),
            r is Err ==> r->Err_0 is DatabaseError,
            r is Ok <==> (old(self).has_job(id) && ({
                let j = old(self).job_row(id);
                (j.job_status == JobStatus::ReadyToBroadcastOnchain) || (j.tx_hash is Some
                    && j.tx_hash->0@ == txhash@)
            })),
            r is Ok && old(self).job_row(id).job_status == JobStatus::ReadyToBroadcastOnchain
                ==> final(self).jobs@ == old(self).jobs@.update(
                old(self).job_index(id),
                JobSchema {
                    tx_hash: Some(txhash),
                    job_status: JobStatus::ProofVerifyCalledOnchain,
                    ..old(self).job_row(id)
                },
            ),
            r is Ok && old(self).job_row(id).job_status != JobStatus::ReadyToBroadcastOnchain
                ==> final(self).jobs@ == old(self).jobs@,
            r is Err ==> final(self).jobs@ == old(self).jobs@,
            final(self).verified_epochs@ == old(self).verified_epochs@,
            final(self).verified_sync_committees@ == old(self).verified_sync_committees@,
            final(self).merkle_paths@ == old(self).merkle_paths@,
    {
        let i = match self.find_job(id) {
            Some(i) => i,
            None => {
                return Err(Error::DatabaseError(String::from_str("no such job")));
            },
        };
        if self.jobs[i].job_status == JobStatus::ReadyToBroadcastOnchain {
            let mut row = self.jobs[i].copy();
            row.tx_hash = Some(txhash);
            row.job_status = JobStatus::ProofVerifyCalledOnchain;
            self.jobs[i] = row;
            assert forall|a: int| 0 <= a < self.jobs@.len() implies row_wf(#[trigger] self.jobs@[a]) by {
                if a != i as int {
                    assert(self.jobs@[a] == old(self).jobs@[a]);
                }
            }
            return Ok(());
        }
        match &self.jobs[i].tx_hash {
            Some(t) => {
                if *t == txhash {
                    Ok(())
                } else {
                    Err(Error::DatabaseError(String::from_str("another transaction is recorded")))
                }
            },
            None => Err(Error::DatabaseError(String::from_str("job is not ready to broadcast"))),
        }
    }

    /// Greatest end epoch over batch jobs in progress; 0 if there is none.
    pub fn get_latest_epoch_in_progress(&self) -> (r: u64)
        ensures
            r == latest_epoch_in_progress(self.jobs@, self.jobs@.len() as int),
    {
        let mut best: u64 = 0;
        let mut i: usize = 0;
        while i < self.jobs.len()
            invariant
                i <= self.jobs@.len(),
                best == latest_epoch_in_progress(self.jobs@, i as int),
            decreases self.jobs@.len() - i,
        {
            let j = &self.jobs[i];
            if j.job_type == JobType::EpochBatchUpdate && !j.job_status.is_terminal()
                && j.batch_range_end_epoch > best {
                best = j.batch_range_end_epoch;
            }
            i = i + 1;
        }
        best
    }

    /// Greatest sync committee over committee jobs in progress; 0 if there is none.
    pub fn get_latest_sync_committee_in_progress(&self) -> (r: u64)
        ensures
            r == latest_committee_in_progress(self.jobs@, self.jobs@.len() as int),
    {
        let mut best: u64 = 0;
        let mut i: usize = 0;
        while i < self.jobs.len()
            invariant
                i <= self.jobs@.len(),
                best == latest_committee_in_progress(self.jobs@, i as int),
            decreases self.jobs@.len() - i,
        {
            let j = &self.jobs[i];
            let c = j.slot / SLOTS_PER_SYNC_COMMITTEE;
            if j.job_type == JobType::SyncCommitteeUpdate && !j.job_status.is_terminal() && c > best {
                best = c;
            }
            i = i + 1;
        }
        best
    }

    /// Number of batch jobs in progress.
    pub fn count_jobs_in_progress(&self) -> (r: u64)
        ensures
            r == self.spec_count_in_progress(),
    {
        let mut n: u64 = 0;
        let mut i: usize = 0;
        while i < self.jobs.len()
            invariant
                i <= self.jobs@.len(),
                n == count_in_progress(self.jobs@, i as int),
                n <= i,
            decreases self.jobs@.len() - i,
        {
            let j = &self.jobs[i];
            if j.job_type == JobType::EpochBatchUpdate && !j.job_status.is_terminal() {
                n = n + 1;
            }
            i = i + 1;
        }
        n
    }

    /// Copies of the rows with the given status, in store order.
    pub fn get_jobs_with_status(&self, desired_status: JobStatus) -> (r: Vec<JobSchema>)
        ensures
            r@ == jobs_with_status(self.jobs@, desired_status, self.jobs@.len() as int),
    {
        let mut out: Vec<JobSchema> = Vec::new();
        let mut i: usize = 0;
        while i < self.jobs.len()
            invariant
                i <= self.jobs@.len(),
                out@ == jobs_with_status(self.jobs@, desired_status, i as int),
            decreases self.jobs@.len() - i,
        {
            if self.jobs[i].job_status == desired_status {
                out.push(self.jobs[i].copy());
            }
            i = i + 1;
        }
        out
    }

    /// Moves every batch whose range lies in `[first_epoch, last_epoch]` and whose
    /// offchain work is finished to ready-to-broadcast; other rows stay as they are.
    pub fn set_ready_to_broadcast_for_batch_epochs(&mut self, first_epoch: u64, last_epoch: u64)
        requires
            old(self).wf(),
        ensures
            final(self).wf(),
            statuses_advance(old(self).jobs@, final(self).jobs@),
            final(self).jobs@.len() == old(self).jobs@.len(),
            forall|i: int|
                0 <= i < old(self).jobs@.len() ==> #[trigger] final(self).jobs@[i] == after_sweep(
                    old(self).jobs@[i],
                    first_epoch,
                    last_epoch,
                ),
            final(self).verified_epochs@ == old(self).verified_epochs@,
            final(self).verified_sync_committees@ == old(self).verified_sync_committees@,
            final(self).merkle_paths@ == old(self).merkle_paths@,
    {
        let mut i: usize = 0;
        while i < self.jobs.len()
            invariant
                i <= self.jobs@.len(),
                self.jobs@.len() == old(self).jobs@.len(),
                self.verified_epochs@ == old(self).verified_epochs@,
                self.verified_sync_committees@ == old(self).verified_sync_committees@,
                self.merkle_paths@ == old(self).merkle_paths@,
                old(self).wf(),
                forall|k: int|
                    0 <= k < i ==> #[trigger] self.jobs@[k] == after_sweep(
                        old(self).jobs@[k],
                        first_epoch,
                        last_epoch,
                    ),
                forall|k: int| i <= k < self.jobs@.len() ==> #[trigger] self.jobs@[k] == old(self).jobs@[k],
            decreases self.jobs@.len() - i,
        {
            let j = &self.jobs[i];
            if j.job_type == JobType::EpochBatchUpdate && j.batch_range_begin_epoch >= first_epoch
                && j.batch_range_end_epoch <= last_epoch && j.job_status
                == JobStatus::OffchainComputationFinished {
                let mut row = j.copy();
                row.job_status = JobStatus::ReadyToBroadcastOnchain;
                self.jobs[i] = row;
            }
            i = i + 1;
        }
        assert forall|i: int, k: int|
            0 <= i < k < self.jobs@.len() implies self.jobs@[i].job_uuid != self.jobs@[k].job_uuid by {
            assert(self.jobs@[i] == after_sweep(old(self).jobs@[i], first_epoch, last_epoch));
            assert(self.jobs@[k] == after_sweep(old(self).jobs@[k], first_epoch, last_epoch));
        }
        assert forall|i: int| 0 <= i < self.jobs@.len() implies row_wf(#[trigger] self.jobs@[i]) by {
            assert(self.jobs@[i] == after_sweep(old(self).jobs@[i], first_epoch, last_epoch));
            assert(row_wf(old(self).jobs@[i]));
        }
    }

    pub open spec fn has_verified_epoch(&self, epoch_id: u64) -> bool {
        exists|i: int|
            0 <= i < self.verified_epochs@.len() && self.verified_epochs@[i].epoch_id == epoch_id
    }

    pub open spec fn has_verified_committee(&self, id: u64) -> bool {
        exists|i: int|
            0 <= i < self.verified_sync_committees@.len()
                && self.verified_sync_committees@[i].sync_committee_id == id
    }

    /// Records a verified epoch; an epoch is recorded at most once.
    pub fn insert_verified_epoch(&mut self, epoch_id: u64, epoch_proof: EpochProof) -> (r: Result<
        (),
        Error,
    >)
        requires
            old(self).wf(),
        ensures
            final(self).wf(),
            statuses_advance(old(self).jobs@, final(self).jobs@),
            r is Err ==> r->Err_0 is DatabaseError,
            r is Ok <==> !old(self).has_verified_epoch(epoch_id),
            r is Ok ==> final(self).verified_epochs@ == old(self).verified_epochs@.push(
                VerifiedEpoch { epoch_id, proof: epoch_proof },
            ),
            r is Err ==> final(self).verified_epochs@ == old(self).verified_epochs@,
            final(self).jobs@ == old(self).jobs@,
            final(self).verified_sync_committees@ == old(self).verified_sync_committees@,
            final(self).merkle_paths@ == old(self).merkle_paths@,
    {
        let mut i: usize = 0;
        while i < self.verified_epochs.len()
            invariant
                i <= self.verified_epochs@.len(),
                self.wf(),
                forall|k: int| 0 <= k < i ==> self.verified_epochs@[k].epoch_id != epoch_id,
            decreases self.verified_epochs@.len() - i,
        {
            if self.verified_epochs[i].epoch_id == epoch_id {
                return Err(Error::DatabaseError(String::from_str("epoch already verified")));
            }
            i = i + 1;
        }
        self.verified_epochs.push(VerifiedEpoch { epoch_id, proof: epoch_proof });
        Ok(())
    }

    /// Records a verified sync committee; a committee is recorded at most once.
    pub fn insert_verified_sync_committee(
        &mut self,
        sync_committee_id: u64,
        sync_committee_hash: [u8; 32],
    ) -> (r: Result<(), Error>)
        requires
            old(self).wf(),
        ensures
            final(self).wf(),
            statuses_advance(old(self).jobs@, final(self).jobs@),
            r is Err ==> r->Err_0 is DatabaseError,
            r is Ok <==> !old(self).has_verified_committee(sync_committee_id),
            r is Ok ==> final(self).verified_sync_committees@
                == old(self).verified_sync_committees@.push(
                VerifiedSyncCommittee { sync_committee_id, sync_committee_hash },
            ),
            r is Err ==> final(self).verified_sync_committees@ == old(self).verified_sync_committees@,
            final(self).jobs@ == old(self).jobs@,
            final(self).verified_epochs@ == old(self).verified_epochs@,
            final(self).merkle_paths@ == old(self).merkle_paths@,
    {
        let mut i: usize = 0;
        while i < self.verified_sync_committees.len()
            invariant
                i <= self.verified_sync_committees@.len(),
                self.wf(),
                forall|k: int|
                    0 <= k < i ==> self.verified_sync_committees@[k].sync_committee_id
                        != sync_committee_id,
            decreases self.verified_sync_committees@.len() - i,
        {
            if self.verified_sync_committees[i].sync_committee_id == sync_committee_id {
                return Err(Error::DatabaseError(String::from_str("committee already verified")));
            }
            i = i + 1;
        }
        self.verified_sync_committees.push(
            VerifiedSyncCommittee { sync_committee_id, sync_committee_hash },
        );
        Ok(())
    }

    /// Number of Merkle path rows stored for the epoch.
    pub fn count_merkle_paths_for_epoch(&self, epoch: u64) -> (r: u64)
        ensures
            r == count_paths(self.merkle_paths@, epoch, self.merkle_paths@.len() as int),
    {
        let mut n: u64 = 0;
        let mut i: usize = 0;
        while i < self.merkle_paths.len()
            invariant
                i <= self.merkle_paths@.len(),
                n == count_paths(self.merkle_paths@, epoch, i as int),
                n <= i,
            decreases self.merkle_paths@.len() - i,
        {
            if self.merkle_paths[i].epoch_id == epoch {
                n = n + 1;
            }
            i = i + 1;
        }
        n
    }

    /// Appends one path step of an epoch. The step must carry the next index of
    /// that epoch, so each epoch's steps stay numbered 0, 1, ... without gaps
    /// or repeats.
    pub fn insert_merkle_path_for_epoch(&mut self, epoch: u64, path_index: u64, path: String) -> (r:
        Result<(), Error>)
        requires
            old(self).wf(),
        ensures
            final(self).wf(),
            statuses_advance(old(self).jobs@, final(self).jobs@),
            r is Err ==> r->Err_0 is DatabaseError,
            r is Ok <==> path_index == count_paths(
                old(self).merkle_paths@,
                epoch,
                old(self).merkle_paths@.len() as int,
            ),
            r is Ok ==> final(self).merkle_paths@ == old(self).merkle_paths@.push(
                EpochMerklePath { epoch_id: epoch, path_index, merkle_path: path },
            ),
            r is Err ==> final(self).merkle_paths@ == old(self).merkle_paths@,
            final(self).jobs@ == old(self).jobs@,
            final(self).verified_epochs@ == old(self).verified_epochs@,
            final(self).verified_sync_committees@ == old(self).verified_sync_committees@,
    {
        let n = self.count_merkle_paths_for_epoch(epoch);
        if n != path_index {
            return Err(Error::DatabaseError(String::from_str("path index out of order")));
        }
        let ghost before = self.merkle_paths@;
        self.merkle_paths.push(EpochMerklePath { epoch_id: epoch, path_index, merkle_path: path });
        assert forall|i: int| 0 <= i < self.merkle_paths@.len() implies (#[trigger] self.merkle_paths@[i]).path_index
            == count_paths(self.merkle_paths@, self.merkle_paths@[i].epoch_id, i) by {
            lemma_count_paths_prefix(before, self.merkle_paths@, self.merkle_paths@[i].epoch_id, i);
        }
        Ok(())
    }

    /// The path steps of an epoch, in the order they were written, which is
    /// the order of their indices.
    pub fn get_merkle_paths_for_epoch(&self, epoch_id: u64) -> (r: Vec<String>)
        ensures
            r@ == paths_of(self.merkle_paths@, epoch_id, self.merkle_paths@.len() as int),
    {
        let mut out: Vec<String> = Vec::new();
        let mut i: usize = 0;
        while i < self.merkle_paths.len()
            invariant
                i <= self.merkle_paths@.len(),
                out@ == paths_of(self.merkle_paths@, epoch_id, i as int),
            decreases self.merkle_paths@.len() - i,
        {
            if self.merkle_paths[i].epoch_id == epoch_id {
                out.push(self.merkle_paths[i].merkle_path.clone());
            }
            i = i + 1;
        }
        out
    }

    /// Greatest slot over jobs still in progress (not terminal); `None` when
    /// there is no such job.
    pub fn get_latest_slot_id_in_progress(&self) -> (r: Option<u64>)
        ensures
            r == latest_slot_in_progress(self.jobs@, self.jobs@.len() as int),
    {
        let mut best: Option<u64> = None;
        let mut i: usize = 0;
        while i < self.jobs.len()
            invariant
                i <= self.jobs@.len(),
                best == latest_slot_in_progress(self.jobs@, i as int),
            decreases self.jobs@.len() - i,
        {
            let j = &self.jobs[i];
            if !j.job_status.is_terminal() {
                best = match best {
                    Some(b) => if j.slot > b {
                        Some(j.slot)
                    } else {
                        Some(b)
                    },
                    None => Some(j.slot),
                };
            }
            i = i + 1;
        }
        best
    }

    /// Cancels every job that is not terminal yet; other rows stay as they are.
    pub fn cancel_all_unfinished_jobs(&mut self)
        requires
            old(self).wf(),
        ensures
            final(self).wf(),
            statuses_advance(old(self).jobs@, final(self).jobs@),
            final(self).jobs@.len() == old(self).jobs@.len(),
            forall|i: int|
                0 <= i < old(self).jobs@.len() ==> #[trigger] final(self).jobs@[i] == if terminal(
                    old(self).jobs@[i].job_status,
                ) {
                    old(self).jobs@[i]
                } else {
                    with_status(old(self).jobs@[i], JobStatus::Cancelled)
                },
            final(self).verified_epochs@ == old(self).verified_epochs@,
            final(self).verified_sync_committees@ == old(self).verified_sync_committees@,
            final(self).merkle_paths@ == old(self).merkle_paths@,
    {
        let mut i: usize = 0;
        while i < self.jobs.len()
            invariant
                i <= self.jobs@.len(),
                self.jobs@.len() == old(self).jobs@.len(),
                self.verified_epochs@ == old(self).verified_epochs@,
                self.verified_sync_committees@ == old(self).verified_sync_committees@,
                self.merkle_paths@ == old(self).merkle_paths@,
                old(self).wf(),
                forall|k: int|
                    0 <= k < i ==> #[trigger] self.jobs@[k] == if terminal(old(self).jobs@[k].job_status) {
                        old(self).jobs@[k]
                    } else {
                        with_status(old(self).jobs@[k], JobStatus::Cancelled)
                    },
                forall|k: int| i <= k < self.jobs@.len() ==> #[trigger] self.jobs@[k] == old(self).jobs@[k],
            decreases self.jobs@.len() - i,
        {
            if !self.jobs[i].job_status.is_terminal() {
                let mut row = self.jobs[i].copy();
                row.job_status = JobStatus::Cancelled;
                self.jobs[i] = row;
            }
            i = i + 1;
        }
        assert forall|i: int, k: int|
            0 <= i < k < self.jobs@.len() implies self.jobs@[i].job_uuid != self.jobs@[k].job_uuid by {
            assert(self.jobs@[i].job_uuid == old(self).jobs@[i].job_uuid);
            assert(self.jobs@[k].job_uuid == old(self).jobs@[k].job_uuid);
        }
        assert forall|i: int| 0 <= i < self.jobs@.len() implies row_wf(#[trigger] self.jobs@[i]) by {
            assert(row_wf(old(self).jobs@[i]));
        }
    }
}

} // verus!
