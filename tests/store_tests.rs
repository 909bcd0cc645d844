use bankai_client::error::Error;
use bankai_client::job::{Job, JobSchema};
use bankai_client::status::{AtlanticJobType, JobStatus, JobType};
use bankai_client::store::{DatabaseManager, EpochProof};

fn batch_job(id: u128, begin: u64, end: u64) -> Job {
    Job {
        job_id: id,
        job_type: JobType::EpochBatchUpdate,
        job_status: JobStatus::Created,
        slot: end * 32,
        batch_range_begin_epoch: Some(begin),
        batch_range_end_epoch: Some(end),
    }
}

fn committee_job(id: u128, slot: u64) -> Job {
    Job {
        job_id: id,
        job_type: JobType::SyncCommitteeUpdate,
        job_status: JobStatus::Created,
        slot,
        batch_range_begin_epoch: None,
        batch_range_end_epoch: None,
    }
}

fn sample_proof() -> EpochProof {
    EpochProof {
        header_root: [1u8; 32],
        state_root: [2u8; 32],
        n_signers: 500,
        execution_hash: [3u8; 32],
        execution_height: 77,
    }
}

#[test]
fn create_job_refuses_duplicates_and_bad_shapes() {
    let mut db = DatabaseManager::new();
    assert!(db.create_job(batch_job(1, 11, 42)).is_ok());
    assert!(matches!(db.create_job(batch_job(1, 43, 74)), Err(Error::DatabaseError(_))));
    let mut bad = batch_job(2, 11, 42);
    bad.slot = 33;
    assert!(matches!(db.create_job(bad), Err(Error::DatabaseError(_))));
    assert_eq!(db.jobs.len(), 1);
    assert_eq!(db.fetch_job_status(1), Some(JobStatus::Created));
    assert_eq!(db.fetch_job_status(2), None);
}

#[test]
fn status_updates_are_monotonic() {
    let mut db = DatabaseManager::new();
    db.create_job(batch_job(1, 11, 42)).unwrap();
    assert!(db.update_job_status(1, JobStatus::FetchedProof).is_ok());
    assert!(db.update_job_status(1, JobStatus::Created).is_err());
    assert!(db.update_job_status(1, JobStatus::FetchedProof).is_err());
    assert!(db.update_job_status(1, JobStatus::PieGenerated).is_ok());
    // no generation id yet: the prover status is refused
    assert!(db.update_job_status(1, JobStatus::OffchainProofRequested).is_err());
    db.set_atlantic_job_queryid(1, "gen-7".to_string(), AtlanticJobType::ProofGeneration).unwrap();
    assert!(db.update_job_status(1, JobStatus::OffchainProofRequested).is_ok());
    assert!(db.update_job_status(1, JobStatus::Error).is_ok());
    assert!(db.update_job_status(1, JobStatus::Cancelled).is_err());
    assert!(db.update_job_status(99, JobStatus::Error).is_err());
    assert_eq!(db.fetch_job_status(1), Some(JobStatus::Error));
}

#[test]
fn prover_ids_are_never_replaced() {
    let mut db = DatabaseManager::new();
    db.create_job(batch_job(1, 11, 42)).unwrap();
    assert!(db.set_atlantic_job_queryid(1, "a".to_string(), AtlanticJobType::ProofGeneration).is_ok());
    assert!(db.set_atlantic_job_queryid(1, "a".to_string(), AtlanticJobType::ProofGeneration).is_ok());
    assert!(db.set_atlantic_job_queryid(1, "b".to_string(), AtlanticJobType::ProofGeneration).is_err());
    assert!(db.set_atlantic_job_queryid(1, "w".to_string(), AtlanticJobType::ProofWrapping).is_ok());
    assert_eq!(db.jobs[0].atlantic_proof_generate_batch_id.as_deref(), Some("a"));
    assert_eq!(db.jobs[0].atlantic_proof_wrapper_batch_id.as_deref(), Some("w"));
    assert!(db.set_atlantic_job_queryid(5, "a".to_string(), AtlanticJobType::ProofWrapping).is_err());
}

#[test]
fn tx_hash_comes_with_the_onchain_call() {
    let mut db = DatabaseManager::new();
    db.create_job(batch_job(1, 11, 42)).unwrap();
    assert!(db.set_job_txhash(1, "0x1".to_string()).is_err());
    for s in [JobStatus::FetchedProof, JobStatus::PieGenerated] {
        db.update_job_status(1, s).unwrap();
    }
    db.set_atlantic_job_queryid(1, "g".to_string(), AtlanticJobType::ProofGeneration).unwrap();
    db.update_job_status(1, JobStatus::OffchainProofRetrieved).unwrap();
    db.set_atlantic_job_queryid(1, "w".to_string(), AtlanticJobType::ProofWrapping).unwrap();
    db.update_job_status(1, JobStatus::OffchainComputationFinished).unwrap();
    // the on-chain call status only comes with a hash
    assert!(db.update_job_status(1, JobStatus::ProofVerifyCalledOnchain).is_err());
    db.set_ready_to_broadcast_for_batch_epochs(0, 100);
    assert_eq!(db.fetch_job_status(1), Some(JobStatus::ReadyToBroadcastOnchain));
    assert!(db.set_job_txhash(1, "0x1".to_string()).is_ok());
    assert_eq!(db.fetch_job_status(1), Some(JobStatus::ProofVerifyCalledOnchain));
    assert_eq!(db.jobs[0].tx_hash.as_deref(), Some("0x1"));
    assert!(db.set_job_txhash(1, "0x1".to_string()).is_ok());
    assert!(db.set_job_txhash(1, "0x2".to_string()).is_err());
}

#[test]
fn in_progress_queries() {
    let mut db = DatabaseManager::new();
    assert_eq!(db.get_latest_epoch_in_progress(), 0);
    assert_eq!(db.get_latest_sync_committee_in_progress(), 0);
    assert_eq!(db.count_jobs_in_progress(), 0);
    db.create_job(batch_job(1, 11, 42)).unwrap();
    db.create_job(batch_job(2, 43, 74)).unwrap();
    db.create_job(committee_job(3, 8192 * 3)).unwrap();
    db.create_job(committee_job(4, 8192 * 2)).unwrap();
    assert_eq!(db.get_latest_epoch_in_progress(), 74);
    assert_eq!(db.get_latest_sync_committee_in_progress(), 3);
    assert_eq!(db.count_jobs_in_progress(), 2);
    db.update_job_status(2, JobStatus::Error).unwrap();
    db.update_job_status(3, JobStatus::Cancelled).unwrap();
    assert_eq!(db.get_latest_epoch_in_progress(), 42);
    assert_eq!(db.get_latest_sync_committee_in_progress(), 2);
    assert_eq!(db.count_jobs_in_progress(), 1);
    let errored = db.get_jobs_with_status(JobStatus::Error);
    assert_eq!(errored.len(), 1);
    assert_eq!(errored[0].job_uuid, 2);
    assert_eq!(db.get_jobs_with_status(JobStatus::Created).len(), 2);
    assert_eq!(db.get_jobs_with_status(JobStatus::Done).len(), 0);
}

#[test]
fn readiness_sweep_only_moves_finished_batches_inside_the_range() {
    let mut db = DatabaseManager::new();
    for (id, b, e) in [(1u128, 11u64, 42u64), (2, 43, 74), (3, 75, 106)] {
        db.create_job(batch_job(id, b, e)).unwrap();
        db.set_atlantic_job_queryid(id, "g".to_string(), AtlanticJobType::ProofGeneration).unwrap();
        db.set_atlantic_job_queryid(id, "w".to_string(), AtlanticJobType::ProofWrapping).unwrap();
    }
    db.update_job_status(1, JobStatus::OffchainComputationFinished).unwrap();
    db.update_job_status(2, JobStatus::OffchainComputationFinished).unwrap();
    db.update_job_status(3, JobStatus::WrappedProofDone).unwrap();
    db.set_ready_to_broadcast_for_batch_epochs(11, 74);
    assert_eq!(db.fetch_job_status(1), Some(JobStatus::ReadyToBroadcastOnchain));
    assert_eq!(db.fetch_job_status(2), Some(JobStatus::ReadyToBroadcastOnchain));
    assert_eq!(db.fetch_job_status(3), Some(JobStatus::WrappedProofDone));
    db.update_job_status(3, JobStatus::OffchainComputationFinished).unwrap();
    db.set_ready_to_broadcast_for_batch_epochs(11, 100);
    assert_eq!(db.fetch_job_status(3), Some(JobStatus::OffchainComputationFinished));
}

#[test]
fn verified_rows_are_unique() {
    let mut db = DatabaseManager::new();
    assert!(db.insert_verified_epoch(200_001, sample_proof()).is_ok());
    assert!(matches!(db.insert_verified_epoch(200_001, sample_proof()), Err(Error::DatabaseError(_))));
    assert!(db.insert_verified_epoch(200_002, sample_proof()).is_ok());
    assert_eq!(db.verified_epochs.len(), 2);
    assert_eq!(db.verified_epochs[0].proof.execution_height, 77);
    assert!(db.insert_verified_sync_committee(781, [9u8; 32]).is_ok());
    assert!(db.insert_verified_sync_committee(781, [8u8; 32]).is_err());
    assert_eq!(db.verified_sync_committees.len(), 1);
    assert_eq!(db.verified_sync_committees[0].sync_committee_hash, [9u8; 32]);
}

#[test]
fn merkle_path_rows_are_numbered_without_gaps() {
    let mut db = DatabaseManager::new();
    assert!(db.insert_merkle_path_for_epoch(12, 1, "x".to_string()).is_err());
    assert!(db.insert_merkle_path_for_epoch(12, 0, "a".to_string()).is_ok());
    assert!(db.insert_merkle_path_for_epoch(13, 0, "z".to_string()).is_ok());
    assert!(db.insert_merkle_path_for_epoch(12, 0, "again".to_string()).is_err());
    assert!(db.insert_merkle_path_for_epoch(12, 1, "b".to_string()).is_ok());
    assert_eq!(db.get_merkle_paths_for_epoch(12), vec!["a".to_string(), "b".to_string()]);
    assert_eq!(db.get_merkle_paths_for_epoch(13), vec!["z".to_string()]);
    assert!(db.get_merkle_paths_for_epoch(14).is_empty());
    assert_eq!(db.count_merkle_paths_for_epoch(12), 2);
}

#[test]
fn latest_slot_in_progress_and_cancel_all() {
    let mut db = DatabaseManager::new();
    assert_eq!(db.get_latest_slot_id_in_progress(), None);
    db.create_job(batch_job(1, 11, 42)).unwrap();
    db.create_job(batch_job(2, 43, 74)).unwrap();
    db.create_job(committee_job(3, 8192 * 3)).unwrap();
    db.update_job_status(3, JobStatus::FetchedProof).unwrap();
    // the committee job is past CREATED but still in progress
    assert_eq!(db.get_latest_slot_id_in_progress(), Some(8192 * 3));
    db.update_job_status(3, JobStatus::Error).unwrap();
    assert_eq!(db.get_latest_slot_id_in_progress(), Some(74 * 32));
    db.update_job_status(2, JobStatus::Error).unwrap();
    assert_eq!(db.get_latest_slot_id_in_progress(), Some(42 * 32));
    db.cancel_all_unfinished_jobs();
    assert_eq!(db.fetch_job_status(1), Some(JobStatus::Cancelled));
    assert_eq!(db.fetch_job_status(2), Some(JobStatus::Error));
    assert_eq!(db.fetch_job_status(3), Some(JobStatus::Error));
    assert_eq!(db.count_jobs_in_progress(), 0);
}

#[test]
fn restored_rows_are_checked() {
    let mut db = DatabaseManager::new();
    let mut row = JobSchema::from_job(&batch_job(1, 11, 42));
    row.job_status = JobStatus::WrapProofRequested;
    assert!(matches!(db.restore_job(row), Err(Error::DatabaseError(_))));
    let mut row = JobSchema::from_job(&batch_job(1, 11, 42));
    row.job_status = JobStatus::WrapProofRequested;
    row.atlantic_proof_generate_batch_id = Some("g".to_string());
    row.atlantic_proof_wrapper_batch_id = Some("w".to_string());
    assert!(db.restore_job(row).is_ok());
    let again = JobSchema::from_job(&batch_job(1, 11, 42));
    assert!(db.restore_job(again).is_err());
    assert_eq!(db.fetch_job_status(1), Some(JobStatus::WrapProofRequested));
}
