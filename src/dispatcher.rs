use vstd::prelude::*;
use crate::constants::{MAX_JOB_RETRIES_COUNT, RETRY_DELAY_MS, SLOTS_PER_EPOCH};
use crate::error::Error;
use crate::job::{row_wf, JobSchema};
use crate::status::{may_transition, terminal, JobStatus, JobType};
use crate::store::DatabaseManager;

verus! {

/// The outside work a job needs next, read from its stored row alone.
#[derive(Debug)]
pub enum JobAction {
    /// Fetch the proof inputs for the slot from the beacon source.
    AssembleInputs { slot: u64 },
    /// Run the trace generator on the assembled inputs.
    GeneratePie,
    /// Submit the trace to the prover for proof generation.
    SubmitProofGeneration,
    /// Poll the prover for the recorded generation query.
    PollProofGeneration { batch_id: String },
    /// Fetch the proof of the recorded generation query and submit it for wrapping.
    SubmitProofWrapping { generation_batch_id: String },
    /// Poll the prover for the recorded wrapping query.
    PollProofWrapping { batch_id: String },
    /// A transition with no outside work: persist the next status.
    Bookkeep,
    /// Wait until the readiness sweep marks the batch ready to broadcast.
    AwaitBroadcastReadiness,
    /// Leave the job to the broadcast serializer.
    Broadcast,
    /// Wait for the receipt of the recorded settlement transaction.
    AwaitReceipt { tx_hash: String },
    /// Nothing more to do.
    Idle,
}

/// What the outside work of a step came to.
#[derive(Debug)]
pub enum StepOutcome {
    InputsAssembled,
    PieGenerated,
    ProofGenerationSubmitted { batch_id: String },
    ProofGenerationDone,
    ProofWrappingSubmitted { batch_id: String },
    ProofWrappingDone,
    Bookkept,
    Broadcasted { tx_hash: String },
    ReceiptConfirmed,
    Failed { error: Error },
    Cancel,
}

/// Whether a failed step is tried again, and after how long.
#[derive(Clone, Copy, Debug, PartialEq, Eq, Structural)]
pub enum RetryDecision {
    RetryAfter { delay_ms: u64, attempts: u64 },
    GiveUp,
}

/// First slot of the epoch after the one that holds `slot`.
pub open spec fn next_epoch_slot_of(slot: u64) -> int {
    (slot / SLOTS_PER_EPOCH) as int * SLOTS_PER_EPOCH as int + SLOTS_PER_EPOCH as int
}

/// The slot whose inputs a job assembles.
pub open spec fn assembly_slot(j: JobSchema) -> u64 {
    if j.job_type == JobType::EpochUpdate && next_epoch_slot_of(j.slot) <= u64::MAX {
        next_epoch_slot_of(j.slot) as u64
    } else {
        j.slot
    }
}

/// The next outside work of a job with the given row.
pub open spec fn action_for(j: JobSchema) -> JobAction {
    match j.job_status {
        JobStatus::Created => JobAction::AssembleInputs { slot: assembly_slot(j) },
        JobStatus::FetchedProof => JobAction::GeneratePie,
        JobStatus::PieGenerated => match j.atlantic_proof_generate_batch_id {
            Some(_) => JobAction::Bookkeep,
            None => JobAction::SubmitProofGeneration,
        },
        JobStatus::OffchainProofRequested => match j.atlantic_proof_generate_batch_id {
            Some(id) => JobAction::PollProofGeneration { batch_id: id },
            None => JobAction::SubmitProofGeneration,
        },
        JobStatus::OffchainProofRetrieved => match j.atlantic_proof_wrapper_batch_id {
            Some(_) => JobAction::Bookkeep,
            None => match j.atlantic_proof_generate_batch_id {
                Some(g) => JobAction::SubmitProofWrapping { generation_batch_id: g },
                None => JobAction::SubmitProofGeneration,
            },
        },
        JobStatus::WrapProofRequested => match j.atlantic_proof_wrapper_batch_id {
            Some(id) => JobAction::PollProofWrapping { batch_id: id },
            None => JobAction::Bookkeep,
        },
        JobStatus::WrappedProofDone => JobAction::Bookkeep,
        JobStatus::OffchainComputationFinished => if j.job_type == JobType::EpochBatchUpdate {
            JobAction::AwaitBroadcastReadiness
        } else {
            JobAction::Bookkeep
        },
        JobStatus::ReadyToBroadcastOnchain => JobAction::Broadcast,
        JobStatus::ProofVerifyCalledOnchain => match j.tx_hash {
            Some(t) => JobAction::AwaitReceipt { tx_hash: t },
            None => JobAction::Broadcast,
        },
        JobStatus::VerifiedFactRegistered => JobAction::Bookkeep,
        _ => JobAction::Idle,
    }
}

/// The retry policy: structural errors end the job at once; other errors are
/// retried after the delay, up to the cap of retries; a failure once the cap
/// is spent ends the job.
pub open spec fn retry_policy(retries: u64, error: Error) -> RetryDecision {
    if error.spec_is_structural() || retries >= MAX_JOB_RETRIES_COUNT {
        RetryDecision::GiveUp
    } else {
        RetryDecision::RetryAfter { delay_ms: RETRY_DELAY_MS, attempts: (retries + 1) as u64 }
    }
}

pub open spec fn step_to(j: JobSchema, s: JobStatus) -> JobSchema {
    JobSchema { job_status: s, retries: 0, ..j }
}

/// The row after an outcome. An outcome that does not answer the row's next
/// action leaves the row as it is.
pub open spec fn advanced(j: JobSchema, o: StepOutcome) -> JobSchema {
    if terminal(j.job_status) {
        j
    } else {
        match o {
            StepOutcome::Cancel => JobSchema { job_status: JobStatus::Cancelled, ..j },
            StepOutcome::Failed { error } => match retry_policy(j.retries, error) {
                RetryDecision::GiveUp => JobSchema { job_status: JobStatus::Error, ..j },
                RetryDecision::RetryAfter { attempts, .. } => JobSchema { retries: attempts, ..j },
            },
            _ => match (action_for(j), o) {
                (JobAction::AssembleInputs { .. }, StepOutcome::InputsAssembled) => step_to(
                    j,
                    JobStatus::FetchedProof,
                ),
                (JobAction::GeneratePie, StepOutcome::PieGenerated) => step_to(
                    j,
                    JobStatus::PieGenerated,
                ),
                (
                    JobAction::SubmitProofGeneration,
                    StepOutcome::ProofGenerationSubmitted { batch_id },
                ) => JobSchema {
                    atlantic_proof_generate_batch_id: Some(batch_id),
                    ..step_to(j, JobStatus::OffchainProofRequested)
                },
                (JobAction::PollProofGeneration { .. }, StepOutcome::ProofGenerationDone) => step_to(
                    j,
                    JobStatus::OffchainProofRetrieved,
                ),
                (
                    JobAction::SubmitProofWrapping { .. },
                    StepOutcome::ProofWrappingSubmitted { batch_id },
                ) => JobSchema {
                    atlantic_proof_wrapper_batch_id: Some(batch_id),
                    ..step_to(j, JobStatus::WrapProofRequested)
                },
                (JobAction::PollProofWrapping { .. }, StepOutcome::ProofWrappingDone) => step_to(
                    j,
                    JobStatus::WrappedProofDone,
                ),
                (JobAction::Bookkeep, StepOutcome::Bookkept) => step_to(j, bookkept_status(j)),
                (JobAction::Broadcast, StepOutcome::Broadcasted { tx_hash }) => JobSchema {
                    tx_hash: Some(tx_hash),
                    ..step_to(j, JobStatus::ProofVerifyCalledOnchain)
                },
                (JobAction::AwaitReceipt { .. }, StepOutcome::ReceiptConfirmed) => step_to(
                    j,
                    JobStatus::VerifiedFactRegistered,
                ),
                _ => j,
            },
        }
    }
}

/// Where a bookkeeping transition leads.
pub open spec fn bookkept_status(j: JobSchema) -> JobStatus {
    match j.job_status {
        JobStatus::PieGenerated => JobStatus::OffchainProofRequested,
        JobStatus::OffchainProofRetrieved => JobStatus::WrapProofRequested,
        JobStatus::WrappedProofDone => JobStatus::OffchainComputationFinished,
        JobStatus::OffchainComputationFinished => JobStatus::ReadyToBroadcastOnchain,
        JobStatus::VerifiedFactRegistered => JobStatus::Done,
        _ => j.job_status,
    }
}

/// First slot of the epoch after the one that holds `slot`.
pub fn next_epoch_slot(slot: u64) -> (r: u64)
    requires
        slot <= u64::MAX - SLOTS_PER_EPOCH,
    ensures
        r == next_epoch_slot_of(slot),
        r % SLOTS_PER_EPOCH == 0,
        r > slot,
{
    let r = slot / SLOTS_PER_EPOCH * SLOTS_PER_EPOCH + SLOTS_PER_EPOCH;
    proof {
        let q = slot as int / 32;
        assert(q * 32 <= slot) by (nonlinear_arith)
            requires
                q == slot as int / 32,
                slot >= 0,
        ;
        assert(q * 32 + 32 > slot) by (nonlinear_arith)
            requires
                q == slot as int / 32,
                slot >= 0,
        ;
        assert((q * 32 + 32) % 32 == 0) by (nonlinear_arith);
    }
    r
}

/// The retry policy for a step that failed after `retries` earlier failures.
pub fn retry_decision(retries: u64, error: &Error) -> (r: RetryDecision)
    ensures
        r == retry_policy(retries, *error),
{
    if error.is_structural() || retries >= MAX_JOB_RETRIES_COUNT {
        RetryDecision::GiveUp
    } else {
        RetryDecision::RetryAfter { delay_ms: RETRY_DELAY_MS, attempts: retries + 1 }
    }
}

impl JobSchema {
    /// The next outside work of the job. It depends on the stored row only, so a
    /// restarted daemon picks up where the row says.
    pub fn next_action(&self) -> (r: JobAction)
        requires
            row_wf(*self),
        ensures
            r == action_for(*self),
    {
        match self.job_status {
            JobStatus::Created => {
                if self.job_type == JobType::EpochUpdate && self.slot <= u64::MAX - SLOTS_PER_EPOCH {
                    JobAction::AssembleInputs { slot: next_epoch_slot(self.slot) }
                } else if self.job_type == JobType::EpochUpdate {
                    proof {
                        assert(next_epoch_slot_of(self.slot) > u64::MAX) by (nonlinear_arith)
                            requires
                                self.slot > u64::MAX - 32,
                                self.slot % 32 == 0,
                        ;
                    }
                    JobAction::AssembleInputs { slot: self.slot }
                } else {
                    JobAction::AssembleInputs { slot: self.slot }
                }
            },
            JobStatus::FetchedProof => JobAction::GeneratePie,
            JobStatus::PieGenerated => match &self.atlantic_proof_generate_batch_id {
                Some(_) => JobAction::Bookkeep,
                None => JobAction::SubmitProofGeneration,
            },
            JobStatus::OffchainProofRequested => match &self.atlantic_proof_generate_batch_id {
                Some(id) => JobAction::PollProofGeneration { batch_id: id.clone() },
                None => JobAction::SubmitProofGeneration,
            },
            JobStatus::OffchainProofRetrieved => match &self.atlantic_proof_wrapper_batch_id {
                Some(_) => JobAction::Bookkeep,
                None => match &self.atlantic_proof_generate_batch_id {
                    Some(g) => JobAction::SubmitProofWrapping { generation_batch_id: g.clone() },
                    None => JobAction::SubmitProofGeneration,
                },
            },
            JobStatus::WrapProofRequested => match &self.atlantic_proof_wrapper_batch_id {
                Some(id) => JobAction::PollProofWrapping { batch_id: id.clone() },
                None => JobAction::Bookkeep,
            },
            JobStatus::WrappedProofDone => JobAction::Bookkeep,
            JobStatus::OffchainComputationFinished => {
                if self.job_type == JobType::EpochBatchUpdate {
                    JobAction::AwaitBroadcastReadiness
                } else {
                    JobAction::Bookkeep
                }
            },
            JobStatus::ReadyToBroadcastOnchain => JobAction::Broadcast,
            JobStatus::ProofVerifyCalledOnchain => match &self.tx_hash {
                Some(t) => JobAction::AwaitReceipt { tx_hash: t.clone() },
                None => JobAction::Broadcast,
            },
            JobStatus::VerifiedFactRegistered => JobAction::Bookkeep,
            _ => JobAction::Idle,
        }
    }
}

impl JobSchema {
    /// The row after the outcome of its next action.
    pub fn advance(&self, outcome: StepOutcome) -> (r: JobSchema)
        requires
            row_wf(*self),
        ensures
            r == advanced(*self, outcome),
    {
        if self.job_status.is_terminal() {
            return self.copy();
        }
        let mut row = self.copy();
        match outcome {
            StepOutcome::Cancel => {
                row.job_status = JobStatus::Cancelled;
                return row;
            },
            StepOutcome::Failed { error } => {
                match retry_decision(self.retries, &error) {
                    RetryDecision::GiveUp => {
                        row.job_status = JobStatus::Error;
                    },
                    RetryDecision::RetryAfter { attempts, .. } => {
                        row.retries = attempts;
                    },
                }
                return row;
            },
            _ => {},
        }
        let action = self.next_action();
        match (action, outcome) {
            (JobAction::AssembleInputs { .. }, StepOutcome::InputsAssembled) => {
                row.job_status = JobStatus::FetchedProof;
                row.retries = 0;
            },
            (JobAction::GeneratePie, StepOutcome::PieGenerated) => {
                row.job_status = JobStatus::PieGenerated;
                row.retries = 0;
            },
            (JobAction::SubmitProofGeneration, StepOutcome::ProofGenerationSubmitted { batch_id }) => {
                row.job_status = JobStatus::OffchainProofRequested;
                row.retries = 0;
                row.atlantic_proof_generate_batch_id = Some(batch_id);
            },
            (JobAction::PollProofGeneration { .. }, StepOutcome::ProofGenerationDone) => {
                row.job_status = JobStatus::OffchainProofRetrieved;
                row.retries = 0;
            },
            (JobAction::SubmitProofWrapping { .. }, StepOutcome::ProofWrappingSubmitted { batch_id }) => {
                row.job_status = JobStatus::WrapProofRequested;
                row.retries = 0;
                row.atlantic_proof_wrapper_batch_id = Some(batch_id);
            },
            (JobAction::PollProofWrapping { .. }, StepOutcome::ProofWrappingDone) => {
                row.job_status = JobStatus::WrappedProofDone;
                row.retries = 0;
            },
            (JobAction::Bookkeep, StepOutcome::Bookkept) => {
                row.job_status = match self.job_status {
                    JobStatus::PieGenerated => JobStatus::OffchainProofRequested,
                    JobStatus::OffchainProofRetrieved => JobStatus::WrapProofRequested,
                    JobStatus::WrappedProofDone => JobStatus::OffchainComputationFinished,
                    JobStatus::OffchainComputationFinished => JobStatus::ReadyToBroadcastOnchain,
                    JobStatus::VerifiedFactRegistered => JobStatus::Done,
                    other => other,
                };
                row.retries = 0;
            },
            (JobAction::Broadcast, StepOutcome::Broadcasted { tx_hash }) => {
                row.job_status = JobStatus::ProofVerifyCalledOnchain;
                row.retries = 0;
                row.tx_hash = Some(tx_hash);
            },
            (JobAction::AwaitReceipt { .. }, StepOutcome::ReceiptConfirmed) => {
                row.job_status = JobStatus::VerifiedFactRegistered;
                row.retries = 0;
            },
            _ => {},
        }
        row
    }
}

/// Every outcome keeps a row within the row rules, and moves its status only
/// along a lawful change.
pub proof fn lemma_advance_is_lawful(j: JobSchema, o: StepOutcome)
    requires
        row_wf(j),
    ensures
        row_wf(advanced(j, o)),
        advanced(j, o).job_status == j.job_status || may_transition(
            j.job_status,
            advanced(j, o).job_status,
        ),
{
}

/// A recorded prover query is never submitted again: a row with a generation
/// id only ever polls that id (or moves on), and likewise for the wrapping id.
pub proof fn lemma_recorded_query_not_resubmitted(j: JobSchema)
    requires
        row_wf(j),
    ensures
        j.atlantic_proof_generate_batch_id is Some ==> action_for(j) != JobAction::SubmitProofGeneration,
        j.atlantic_proof_wrapper_batch_id is Some ==> !(action_for(j) is SubmitProofWrapping),
        j.job_status == JobStatus::OffchainProofRequested ==> action_for(j)
            == (JobAction::PollProofGeneration { batch_id: j.atlantic_proof_generate_batch_id->0 }),
        j.job_status == JobStatus::WrapProofRequested ==> action_for(j)
            == (JobAction::PollProofWrapping { batch_id: j.atlantic_proof_wrapper_batch_id->0 }),
{
}

/// The row after a sequence of outcomes, applied in order.
pub open spec fn run_outcomes(j: JobSchema, os: Seq<StepOutcome>) -> JobSchema
    decreases os.len(),
{
    if os.len() == 0 {
        j
    } else {
        advanced(run_outcomes(j, os.drop_last()), os.last())
    }
}

/// Resuming from the stored row after any prefix of a run ends in the same row
/// as the uninterrupted run, provided the outside services answer the same.
pub proof fn lemma_resume_matches_uninterrupted(
    j: JobSchema,
    before: Seq<StepOutcome>,
    after: Seq<StepOutcome>,
)
    ensures
        run_outcomes(run_outcomes(j, before), after) == run_outcomes(j, before + after),
    decreases after.len(),
{
    if after.len() == 0 {
        assert(before + after =~= before);
    } else {
        lemma_resume_matches_uninterrupted(j, before, after.drop_last());
        assert((before + after).drop_last() =~= before + after.drop_last());
        assert((before + after).last() == after.last());
    }
}

impl DatabaseManager {
    /// Applies the outcome of a job's next action to its stored row.
    pub fn apply_outcome(&mut self, id: u128, outcome: StepOutcome) -> (r: Result<JobStatus, Error>)
        requires
            old(self).wf(),
        ensures
            final(self).wf(),
            crate::store::statuses_advance(old(self).jobs@, final(self).jobs@),
            r is Err ==> r->Err_0 is DatabaseError,
            r is Ok <==> old(self).has_job(id),
            r is Ok ==> final(self).jobs@ == old(self).jobs@.update(
                old(self).job_index(id),
                advanced(old(self).job_row(id), outcome),
            ) && r->Ok_0 == advanced(old(self).job_row(id), outcome).job_status,
            r is Err ==> final(self).jobs@ == old(self).jobs@,
            final(self).verified_epochs@ == old(self).verified_epochs@,
            final(self).verified_sync_committees@ == old(self).verified_sync_committees@,
            final(self).merkle_paths@ == old(self).merkle_paths@,
    {
        let i = match self.find_job(id) {
            Some(i) => i,
            None => {
                return Err(Error::DatabaseError(String::from_str("no such job")));
            },
        };
        proof {
            assert(row_wf(self.jobs@[i as int]));
            lemma_advance_is_lawful(self.jobs@[i as int], outcome);
        }
        let row = self.jobs[i].advance(outcome);
        let status = row.job_status;
        self.jobs[i] = row;
        assert forall|a: int| 0 <= a < self.jobs@.len() implies row_wf(#[trigger] self.jobs@[a]) by {
            if a != i as int {
                assert(self.jobs@[a] == old(self).jobs@[a]);
            }
        }
        Ok(status)
    }

    /// The next outside work of a stored job, if the job exists.
    pub fn next_action_for(&self, id: u128) -> (r: Option<JobAction>)
        requires
            self.wf(),
        ensures
            r == (if self.has_job(id) {
                Some(action_for(self.job_row(id)))
            } else {
                None
            }),
    {
        match self.find_job(id) {
            Some(i) => {
                proof {
                    assert(row_wf(self.jobs@[i as int]));
                }
                Some(self.jobs[i].next_action())
            },
            None => None,
        }
    }
}

} // verus!
