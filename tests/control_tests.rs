use bankai_client::control::{plan_head_event, run_control_tick, store_plans, HeadObservation, JobPlan};
use bankai_client::job::Job;
use bankai_client::status::{JobStatus, JobType};
use bankai_client::store::DatabaseManager;

fn batch(begin: u64, end: u64) -> JobPlan {
    JobPlan { job_type: JobType::EpochBatchUpdate, slot: end * 32, begin, end }
}

fn head(slot: u64, epoch_transition: bool) -> HeadObservation {
    HeadObservation { slot, epoch_transition }
}

#[test]
fn cold_start_near_tip() {
    let plans = plan_head_event(&head(6_400_032, true), 6_400_000, 0, 0);
    assert_eq!(plans, vec![batch(200_001, 200_001)]);
    assert_eq!(plans[0].slot, 6_400_032);
    let mut db = DatabaseManager::new();
    let jobs = run_control_tick(&mut db, &head(6_400_032, true), 6_400_000);
    assert_eq!(jobs.len(), 1);
    assert_eq!(jobs[0].batch_range_begin_epoch, Some(200_001));
    assert_eq!(jobs[0].batch_range_end_epoch, Some(200_001));
    assert_eq!(jobs[0].slot, 6_400_032);
    assert_eq!(db.jobs.len(), 1);
    assert_eq!(db.jobs[0].job_status, JobStatus::Created);
}

#[test]
fn no_epoch_work_without_transition_near_tip() {
    assert!(plan_head_event(&head(6_400_033, false), 6_400_000, 0, 0).is_empty());
    // nothing left to cover
    assert!(plan_head_event(&head(6_400_032, true), 6_400_032, 0, 0).is_empty());
}

#[test]
fn catch_up_by_one_hundred_epochs() {
    // settlement at epoch 10, head at epoch 110
    let obs = head(110 * 32, true);
    let plans = plan_head_event(&obs, 10 * 32, 0, 0);
    assert_eq!(plans, vec![batch(11, 42), batch(43, 74), batch(75, 106)]);
    // the next tick, settlement still at epoch 10, plans the shorter tail
    assert_eq!(plan_head_event(&obs, 10 * 32, 106, 3), vec![batch(107, 110)]);
    // after that nothing is left to plan
    assert!(plan_head_event(&obs, 10 * 32, 110, 4).is_empty());
    // the same ticks through the store
    let mut db = DatabaseManager::new();
    let first = run_control_tick(&mut db, &obs, 10 * 32);
    let second = run_control_tick(&mut db, &obs, 10 * 32);
    let third = run_control_tick(&mut db, &obs, 10 * 32);
    let ranges: Vec<(Option<u64>, Option<u64>, u64)> = first
        .iter()
        .chain(second.iter())
        .map(|j| (j.batch_range_begin_epoch, j.batch_range_end_epoch, j.slot))
        .collect();
    assert_eq!(
        ranges,
        vec![
            (Some(11), Some(42), 42 * 32),
            (Some(43), Some(74), 74 * 32),
            (Some(75), Some(106), 106 * 32),
            (Some(107), Some(110), 110 * 32),
        ]
    );
    assert!(third.is_empty());
    assert_eq!(db.count_jobs_in_progress(), 4);
}

#[test]
fn catch_up_with_thirty_three_epochs_behind() {
    let obs = head(33 * 32, false);
    let plans = plan_head_event(&obs, 0, 0, 0);
    assert_eq!(plans, vec![batch(1, 32)]);
    assert_eq!(plans[0].end - plans[0].begin + 1, 32);
    // next tick, the batch is in progress: only the one-epoch tail is left
    assert_eq!(plan_head_event(&obs, 0, 32, 1), vec![batch(33, 33)]);
    assert!(plan_head_event(&obs, 0, 33, 2).is_empty());
}

#[test]
fn catch_up_never_crosses_a_committee_period() {
    let plans = plan_head_event(&head(300 * 32, true), 240 * 32, 0, 0);
    assert_eq!(plans, vec![batch(241, 255), batch(256, 287)]);
}

#[test]
fn catch_up_respects_the_job_bound() {
    let obs = head(10_000 * 32, true);
    assert_eq!(plan_head_event(&obs, 0, 0, 0).len(), 16);
    assert_eq!(plan_head_event(&obs, 0, 0, 14).len(), 2);
    assert!(plan_head_event(&obs, 0, 0, 16).is_empty());
    assert!(plan_head_event(&obs, 0, 0, 20).is_empty());
    let mut db = DatabaseManager::new();
    let created = run_control_tick(&mut db, &obs, 0);
    assert_eq!(created.len(), 16);
    assert_eq!(db.count_jobs_in_progress(), 16);
    let again = run_control_tick(&mut db, &obs, 0);
    assert!(again.is_empty());
    assert_eq!(db.count_jobs_in_progress(), 16);
}

#[test]
fn committee_rotation_adds_one_update() {
    let k = 3u64;
    let slot = 8192 * k;
    let plans = plan_head_event(&head(slot, true), (256 * k - 1) * 32, 0, 0);
    assert_eq!(
        plans,
        vec![
            batch(256 * k, 256 * k),
            JobPlan { job_type: JobType::SyncCommitteeUpdate, slot, begin: 0, end: 0 },
        ]
    );
    let only = plan_head_event(&head(slot, false), (256 * k - 1) * 32, 0, 0);
    assert_eq!(only, vec![JobPlan { job_type: JobType::SyncCommitteeUpdate, slot, begin: 0, end: 0 }]);
    let none = plan_head_event(&head(slot + 32, true), slot, 0, 0);
    assert!(none.iter().all(|p| p.job_type != JobType::SyncCommitteeUpdate));
    // even at the job bound the committee update is planned
    let bound = plan_head_event(&head(slot, true), 0, 0, 16);
    assert_eq!(bound.len(), 1);
    assert_eq!(bound[0].job_type, JobType::SyncCommitteeUpdate);
}

#[test]
fn tick_stores_jobs_with_random_ids() {
    let mut db = DatabaseManager::new();
    let created: Vec<Job> = run_control_tick(&mut db, &head(8192 * 2, true), 8192 * 2 - 32);
    assert_eq!(created.len(), 2);
    assert_ne!(created[0].job_id, created[1].job_id);
    for j in &created {
        assert_eq!((j.job_id >> 76) & 0xf, 4);
        assert_eq!((j.job_id >> 62) & 0x3, 2);
        assert_eq!(db.fetch_job_status(j.job_id), Some(JobStatus::Created));
    }
    assert_eq!(db.get_latest_sync_committee_in_progress(), 2);
    assert_eq!(db.get_latest_epoch_in_progress(), 512);
}

#[test]
fn rotation_during_catch_up_keeps_both_rules() {
    // head opens period 3 while settlement is far behind in period 2
    let slot = 8192 * 3;
    let plans = plan_head_event(&head(slot, true), 700 * 32, 0, 0);
    assert_eq!(
        plans,
        vec![
            batch(701, 732),
            batch(733, 764),
            JobPlan { job_type: JobType::SyncCommitteeUpdate, slot, begin: 0, end: 0 },
        ]
    );
}

#[test]
fn plans_are_stored_under_free_ids_only() {
    let mut db = DatabaseManager::new();
    let plans = vec![batch(11, 42), batch(43, 74), batch(75, 106), batch(107, 110)];
    let first = store_plans(&mut db, &plans[..1].to_vec(), &vec![5]);
    assert_eq!(first.len(), 1);
    // id 5 is taken, id 6 repeats within the call
    let stored = store_plans(&mut db, &plans[1..].to_vec(), &vec![5, 6, 6]);
    assert_eq!(stored.len(), 1);
    assert_eq!(stored[0].job_id, 6);
    assert_eq!(stored[0].batch_range_begin_epoch, Some(75));
    assert_eq!(db.jobs.len(), 2);
    // a plan that breaks the data model is left out
    let bad = JobPlan { job_type: JobType::EpochBatchUpdate, slot: 33, begin: 1, end: 1 };
    assert!(store_plans(&mut db, &vec![bad], &vec![9]).is_empty());
    assert_eq!(db.jobs.len(), 2);
}
