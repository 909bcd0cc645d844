use bankai_client::broadcast::check_pre_state;
use bankai_client::constants::{MAX_JOB_RETRIES_COUNT, RETRY_DELAY_MS};
use bankai_client::dispatcher::{next_epoch_slot, retry_decision, JobAction, RetryDecision, StepOutcome};
use bankai_client::error::Error;
use bankai_client::job::{Job, JobSchema};
use bankai_client::probe::SlotProbe;
use bankai_client::status::{AtlanticJobType, JobStatus, JobType};
use bankai_client::store::DatabaseManager;

fn batch_job(id: u128, begin: u64, end: u64) -> Job {
    Job {
        job_id: id,
        job_type: JobType::EpochBatchUpdate,
        job_status: JobStatus::Created,
        slot: end * 32,
        batch_range_begin_epoch: Some(begin),
        batch_range_end_epoch: Some(end),
    }
}

fn committee_job(id: u128, slot: u64) -> Job {
    Job {
        job_id: id,
        job_type: JobType::SyncCommitteeUpdate,
        job_status: JobStatus::Created,
        slot,
        batch_range_begin_epoch: None,
        batch_range_end_epoch: None,
    }
}

fn status(db: &DatabaseManager, id: u128) -> JobStatus {
    db.fetch_job_status(id).unwrap()
}

/// Drives a batch job to ready-to-broadcast, answering each action as a
/// successful outside service would.
fn run_to_ready(db: &mut DatabaseManager, id: u128) {
    loop {
        let action = db.next_action_for(id).unwrap();
        let outcome = match action {
            JobAction::AssembleInputs { .. } => StepOutcome::InputsAssembled,
            JobAction::GeneratePie => StepOutcome::PieGenerated,
            JobAction::SubmitProofGeneration => StepOutcome::ProofGenerationSubmitted { batch_id: "gen-1".to_string() },
            JobAction::PollProofGeneration { .. } => StepOutcome::ProofGenerationDone,
            JobAction::SubmitProofWrapping { .. } => StepOutcome::ProofWrappingSubmitted { batch_id: "wrap-1".to_string() },
            JobAction::PollProofWrapping { .. } => StepOutcome::ProofWrappingDone,
            JobAction::Bookkeep => StepOutcome::Bookkept,
            JobAction::AwaitBroadcastReadiness => {
                db.set_ready_to_broadcast_for_batch_epochs(0, u64::MAX);
                continue;
            }
            _ => return,
        };
        db.apply_outcome(id, outcome).unwrap();
    }
}

#[test]
fn batch_job_runs_through_every_status() {
    let mut db = DatabaseManager::new();
    db.create_job(batch_job(1, 200_001, 200_001)).unwrap();
    assert!(matches!(db.next_action_for(1), Some(JobAction::AssembleInputs { slot: 6_400_032 })));
    let mut seen = vec![status(&db, 1)];
    for outcome in [
        StepOutcome::InputsAssembled,
        StepOutcome::PieGenerated,
        StepOutcome::ProofGenerationSubmitted { batch_id: "gen-1".to_string() },
        StepOutcome::ProofGenerationDone,
        StepOutcome::ProofWrappingSubmitted { batch_id: "wrap-1".to_string() },
        StepOutcome::ProofWrappingDone,
        StepOutcome::Bookkept,
    ] {
        seen.push(db.apply_outcome(1, outcome).unwrap());
    }
    assert!(matches!(db.next_action_for(1), Some(JobAction::AwaitBroadcastReadiness)));
    db.set_ready_to_broadcast_for_batch_epochs(200_001, 200_001);
    seen.push(status(&db, 1));
    assert!(matches!(db.next_action_for(1), Some(JobAction::Broadcast)));
    assert!(check_pre_state(&db.jobs[0], 200_000).is_ok());
    seen.push(db.apply_outcome(1, StepOutcome::Broadcasted { tx_hash: "0xfeed".to_string() }).unwrap());
    match db.next_action_for(1) {
        Some(JobAction::AwaitReceipt { tx_hash }) => assert_eq!(tx_hash, "0xfeed"),
        _ => panic!("expected to await the receipt"),
    }
    seen.push(db.apply_outcome(1, StepOutcome::ReceiptConfirmed).unwrap());
    seen.push(db.apply_outcome(1, StepOutcome::Bookkept).unwrap());
    assert_eq!(
        seen,
        vec![
            JobStatus::Created,
            JobStatus::FetchedProof,
            JobStatus::PieGenerated,
            JobStatus::OffchainProofRequested,
            JobStatus::OffchainProofRetrieved,
            JobStatus::WrapProofRequested,
            JobStatus::WrappedProofDone,
            JobStatus::OffchainComputationFinished,
            JobStatus::ReadyToBroadcastOnchain,
            JobStatus::ProofVerifyCalledOnchain,
            JobStatus::VerifiedFactRegistered,
            JobStatus::Done,
        ]
    );
    assert!(matches!(db.next_action_for(1), Some(JobAction::Idle)));
    assert_eq!(db.jobs[0].atlantic_proof_generate_batch_id.as_deref(), Some("gen-1"));
    assert_eq!(db.jobs[0].atlantic_proof_wrapper_batch_id.as_deref(), Some("wrap-1"));
    // the settled epoch is recorded once
    let proof = bankai_client::store::EpochProof {
        header_root: [1u8; 32],
        state_root: [2u8; 32],
        n_signers: 400,
        execution_hash: [3u8; 32],
        execution_height: 9,
    };
    assert!(db.insert_verified_epoch(200_001, proof).is_ok());
    assert_eq!(db.verified_epochs[0].epoch_id, 200_001);
}

#[test]
fn outcome_that_does_not_answer_the_action_changes_nothing() {
    let mut db = DatabaseManager::new();
    db.create_job(batch_job(1, 11, 42)).unwrap();
    assert_eq!(db.apply_outcome(1, StepOutcome::ProofWrappingDone).unwrap(), JobStatus::Created);
    assert_eq!(db.apply_outcome(1, StepOutcome::Broadcasted { tx_hash: "x".to_string() }).unwrap(), JobStatus::Created);
    assert!(db.jobs[0].tx_hash.is_none());
    assert!(db.apply_outcome(2, StepOutcome::InputsAssembled).is_err());
}

#[test]
fn crash_mid_wrap_resumes_polling() {
    let mut db = DatabaseManager::new();
    db.create_job(batch_job(1, 11, 42)).unwrap();
    db.set_atlantic_job_queryid(1, "gen-9".to_string(), AtlanticJobType::ProofGeneration).unwrap();
    db.set_atlantic_job_queryid(1, "wrap-9".to_string(), AtlanticJobType::ProofWrapping).unwrap();
    db.update_job_status(1, JobStatus::WrapProofRequested).unwrap();
    // a restarted daemon reads the row and polls the recorded wrapping query
    match db.next_action_for(1) {
        Some(JobAction::PollProofWrapping { batch_id }) => assert_eq!(batch_id, "wrap-9"),
        _ => panic!("expected a poll of the recorded wrapping query"),
    }
    assert_eq!(db.apply_outcome(1, StepOutcome::ProofWrappingDone).unwrap(), JobStatus::WrappedProofDone);
    assert_eq!(db.jobs[0].atlantic_proof_wrapper_batch_id.as_deref(), Some("wrap-9"));
}

#[test]
fn recorded_generation_id_is_not_resubmitted() {
    let mut db = DatabaseManager::new();
    db.create_job(batch_job(1, 11, 42)).unwrap();
    db.update_job_status(1, JobStatus::PieGenerated).unwrap();
    assert!(matches!(db.next_action_for(1), Some(JobAction::SubmitProofGeneration)));
    // the id was recorded, then the daemon stopped before the status moved
    db.set_atlantic_job_queryid(1, "gen-5".to_string(), AtlanticJobType::ProofGeneration).unwrap();
    assert!(matches!(db.next_action_for(1), Some(JobAction::Bookkeep)));
    db.apply_outcome(1, StepOutcome::Bookkept).unwrap();
    match db.next_action_for(1) {
        Some(JobAction::PollProofGeneration { batch_id }) => assert_eq!(batch_id, "gen-5"),
        _ => panic!("expected a poll of the recorded query"),
    }
    // a late submission answer does not replace the recorded id
    db.apply_outcome(1, StepOutcome::ProofGenerationSubmitted { batch_id: "gen-6".to_string() }).unwrap();
    assert_eq!(db.jobs[0].atlantic_proof_generate_batch_id.as_deref(), Some("gen-5"));
    db.apply_outcome(1, StepOutcome::ProofGenerationDone).unwrap();
    match db.next_action_for(1) {
        Some(JobAction::SubmitProofWrapping { generation_batch_id }) => assert_eq!(generation_batch_id, "gen-5"),
        _ => panic!("expected the wrapping submission"),
    }
}

#[test]
fn prover_permanent_failure_ends_in_error() {
    let mut db = DatabaseManager::new();
    db.create_job(batch_job(1, 11, 42)).unwrap();
    db.create_job(batch_job(2, 43, 74)).unwrap();
    db.update_job_status(1, JobStatus::PieGenerated).unwrap();
    for attempt in 1..=MAX_JOB_RETRIES_COUNT {
        let s = db.apply_outcome(1, StepOutcome::Failed { error: Error::ProverError }).unwrap();
        assert_eq!(s, JobStatus::PieGenerated);
        assert_eq!(db.jobs[0].retries, attempt);
    }
    let s = db.apply_outcome(1, StepOutcome::Failed { error: Error::ProverError }).unwrap();
    assert_eq!(s, JobStatus::Error);
    assert_eq!(db.get_jobs_with_status(JobStatus::Error).len(), 1);
    // the other job is unaffected
    assert_eq!(status(&db, 2), JobStatus::Created);
    assert_eq!(db.apply_outcome(2, StepOutcome::InputsAssembled).unwrap(), JobStatus::FetchedProof);
    // nothing moves an errored job
    assert_eq!(db.apply_outcome(1, StepOutcome::ProofGenerationSubmitted { batch_id: "g".to_string() }).unwrap(), JobStatus::Error);
}

#[test]
fn progress_resets_the_retry_count() {
    let mut db = DatabaseManager::new();
    db.create_job(batch_job(1, 11, 42)).unwrap();
    db.apply_outcome(1, StepOutcome::Failed { error: Error::BeaconRpcError }).unwrap();
    assert_eq!(db.jobs[0].retries, 1);
    db.apply_outcome(1, StepOutcome::InputsAssembled).unwrap();
    assert_eq!(db.jobs[0].retries, 0);
}

#[test]
fn structural_errors_end_the_job_at_once() {
    let mut db = DatabaseManager::new();
    db.create_job(batch_job(1, 11, 42)).unwrap();
    db.create_job(batch_job(2, 43, 74)).unwrap();
    assert_eq!(db.apply_outcome(1, StepOutcome::Failed { error: Error::InvalidMerkleTree }).unwrap(), JobStatus::Error);
    assert_eq!(db.apply_outcome(2, StepOutcome::Cancel).unwrap(), JobStatus::Cancelled);
    assert_eq!(retry_decision(0, &Error::InvalidProof), RetryDecision::GiveUp);
    assert_eq!(retry_decision(0, &Error::RequiresNewerEpoch(5)), RetryDecision::GiveUp);
    assert_eq!(retry_decision(0, &Error::CairoRunError("oom".to_string())), RetryDecision::RetryAfter { delay_ms: RETRY_DELAY_MS, attempts: 1 });
    assert_eq!(retry_decision(8, &Error::ProverError), RetryDecision::RetryAfter { delay_ms: RETRY_DELAY_MS, attempts: 9 });
    assert_eq!(retry_decision(9, &Error::ProverError), RetryDecision::RetryAfter { delay_ms: RETRY_DELAY_MS, attempts: 10 });
    assert_eq!(retry_decision(10, &Error::ProverError), RetryDecision::GiveUp);
    assert_eq!(retry_decision(u64::MAX, &Error::IoError), RetryDecision::GiveUp);
}

#[test]
fn committee_job_marks_itself_ready() {
    let mut db = DatabaseManager::new();
    db.create_job(committee_job(7, 8192 * 3)).unwrap();
    run_to_ready(&mut db, 7);
    assert_eq!(status(&db, 7), JobStatus::ReadyToBroadcastOnchain);
}

#[test]
fn resumed_run_matches_uninterrupted_run() {
    let mut a = DatabaseManager::new();
    a.create_job(batch_job(1, 11, 42)).unwrap();
    run_to_ready(&mut a, 1);
    let mut b = DatabaseManager::new();
    b.create_job(batch_job(1, 11, 42)).unwrap();
    b.apply_outcome(1, StepOutcome::InputsAssembled).unwrap();
    b.apply_outcome(1, StepOutcome::PieGenerated).unwrap();
    // restart: only the stored rows survive
    let rows: Vec<JobSchema> = b.jobs.iter().map(|r| r.copy()).collect();
    let mut c = DatabaseManager::new();
    c.jobs = rows;
    run_to_ready(&mut c, 1);
    assert_eq!(status(&a, 1), status(&c, 1));
    assert_eq!(a.jobs[0].atlantic_proof_generate_batch_id, c.jobs[0].atlantic_proof_generate_batch_id);
    assert_eq!(a.jobs[0].atlantic_proof_wrapper_batch_id, c.jobs[0].atlantic_proof_wrapper_batch_id);
}

#[test]
fn epoch_update_targets_the_next_epoch() {
    assert_eq!(next_epoch_slot(64), 96);
    assert_eq!(next_epoch_slot(65), 96);
    assert_eq!(next_epoch_slot(0), 32);
    let mut db = DatabaseManager::new();
    db.create_job(Job {
        job_id: 3,
        job_type: JobType::EpochUpdate,
        job_status: JobStatus::Created,
        slot: 6_400_000,
        batch_range_begin_epoch: None,
        batch_range_end_epoch: None,
    })
    .unwrap();
    assert!(matches!(db.next_action_for(3), Some(JobAction::AssembleInputs { slot: 6_400_032 })));
}

#[test]
fn empty_slot_on_committee_entry() {
    let mut probe = SlotProbe::for_committee(6_400_000);
    // first slot is empty: move on one slot; the second attempt succeeds
    assert_eq!(probe.on_empty_slot().unwrap(), 6_400_001);
    assert_eq!(probe.slot, 6_400_001);
    assert_eq!(probe.advances, 1);
}

#[test]
fn empty_slot_advancement_is_bounded() {
    let mut committee = SlotProbe::for_committee(100);
    for k in 1..=3u64 {
        assert_eq!(committee.on_empty_slot().unwrap(), 100 + k);
    }
    assert!(matches!(committee.on_empty_slot(), Err(Error::EmptySlotDetected(103))));
    assert_eq!(committee.slot, 103);
    let mut batch = SlotProbe::for_batch(100);
    for k in 1..=5u64 {
        assert_eq!(batch.on_empty_slot().unwrap(), 100 + k);
    }
    assert!(matches!(batch.on_empty_slot(), Err(Error::EmptySlotDetected(105))));
    assert!(matches!(batch.on_empty_slot(), Err(Error::EmptySlotDetected(105))));
}
