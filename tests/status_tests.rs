use bankai_client::job::{slot_to_epoch_id, slot_to_sync_committee_id, Job, JobSchema};
use bankai_client::status::{JobStatus, JobType};

const ALL: [JobStatus; 14] = [
    JobStatus::Created,
    JobStatus::FetchedProof,
    JobStatus::PieGenerated,
    JobStatus::OffchainProofRequested,
    JobStatus::OffchainProofRetrieved,
    JobStatus::WrapProofRequested,
    JobStatus::WrappedProofDone,
    JobStatus::OffchainComputationFinished,
    JobStatus::ReadyToBroadcastOnchain,
    JobStatus::ProofVerifyCalledOnchain,
    JobStatus::VerifiedFactRegistered,
    JobStatus::Done,
    JobStatus::Error,
    JobStatus::Cancelled,
];

#[test]
fn status_names_round_trip() {
    for s in ALL {
        assert_eq!(JobStatus::from_str(s.to_string()), Some(s));
    }
    assert_eq!(JobStatus::Created.to_string(), "CREATED");
    assert_eq!(JobStatus::ReadyToBroadcastOnchain.to_string(), "READY_TO_BROADCAST_ONCHAIN");
    assert_eq!(JobStatus::from_str("OFFCHAIN_COMPUTATION_FINISHED"), Some(JobStatus::OffchainComputationFinished));
    assert_eq!(JobStatus::from_str("READY_TO_BROADCAST"), None);
    assert_eq!(JobStatus::from_str(""), None);
    assert_eq!(JobStatus::from_str("created"), None);
}

#[test]
fn status_order_is_forward_only() {
    for (i, a) in ALL.iter().enumerate() {
        for (k, b) in ALL.iter().enumerate() {
            let expected = if a.is_terminal() {
                false
            } else if *b == JobStatus::Error || *b == JobStatus::Cancelled {
                true
            } else {
                k > i
            };
            assert_eq!(a.can_transition_to(*b), expected, "{:?} -> {:?}", a, b);
        }
    }
    assert!(JobStatus::Created.can_transition_to(JobStatus::FetchedProof));
    assert!(!JobStatus::FetchedProof.can_transition_to(JobStatus::Created));
    assert!(JobStatus::WrapProofRequested.can_transition_to(JobStatus::Cancelled));
    assert!(!JobStatus::Done.can_transition_to(JobStatus::Error));
    assert!(!JobStatus::Error.can_transition_to(JobStatus::Done));
    assert_eq!(JobStatus::Done.rank(), 11);
}

#[test]
fn slot_helpers() {
    assert_eq!(slot_to_epoch_id(6_400_032), 200_001);
    assert_eq!(slot_to_epoch_id(31), 0);
    assert_eq!(slot_to_sync_committee_id(8192 * 7), 7);
    assert_eq!(slot_to_sync_committee_id(8191), 0);
}

fn batch(slot: u64, begin: u64, end: u64) -> Job {
    Job {
        job_id: 1,
        job_type: JobType::EpochBatchUpdate,
        job_status: JobStatus::Created,
        slot,
        batch_range_begin_epoch: Some(begin),
        batch_range_end_epoch: Some(end),
    }
}

#[test]
fn job_shape_rules() {
    assert!(batch(32 * 42, 11, 42).is_well_formed());
    // not epoch aligned
    assert!(!batch(32 * 42 + 1, 11, 42).is_well_formed());
    // reversed range
    assert!(!batch(32 * 42, 42, 11).is_well_formed());
    // range crosses a sync-committee period
    assert!(!batch(32 * 260, 250, 260).is_well_formed());
    // zero slot
    assert!(!batch(0, 0, 0).is_well_formed());
    let committee = Job {
        job_id: 2,
        job_type: JobType::SyncCommitteeUpdate,
        job_status: JobStatus::Created,
        slot: 8193,
        batch_range_begin_epoch: None,
        batch_range_end_epoch: None,
    };
    assert!(committee.is_well_formed());
    let mut bad = batch(32 * 42, 11, 42);
    bad.batch_range_end_epoch = None;
    assert!(!bad.is_well_formed());
    let mut started = batch(32 * 42, 11, 42);
    started.job_status = JobStatus::FetchedProof;
    assert!(!started.is_well_formed());
}

#[test]
fn row_rules_on_prover_ids_and_tx_hash() {
    let mut row = JobSchema::from_job(&batch(32 * 42, 11, 42));
    assert!(row.is_well_formed());
    row.job_status = JobStatus::OffchainProofRequested;
    assert!(!row.is_well_formed());
    row.atlantic_proof_generate_batch_id = Some("gen-1".to_string());
    assert!(row.is_well_formed());
    row.job_status = JobStatus::ProofVerifyCalledOnchain;
    row.atlantic_proof_wrapper_batch_id = Some("wrap-1".to_string());
    assert!(!row.is_well_formed());
    row.tx_hash = Some("0xabc".to_string());
    assert!(row.is_well_formed());
    row.job_status = JobStatus::Error;
    assert!(row.is_well_formed());
}
