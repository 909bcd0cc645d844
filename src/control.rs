use vstd::prelude::*;
use crate::constants::{
    EPOCHS_PER_SYNC_COMMITTEE, MAX_CONCURRENT_JOBS_IN_PROGRESS, SLOTS_PER_EPOCH,
    SLOTS_PER_SYNC_COMMITTEE, TARGET_BATCH_SIZE,
};
use crate::job::{epoch_of_slot, row_of_job, shape_ok, Job, JobSchema};
use crate::store::{count_in_progress, latest_epoch_in_progress, DatabaseManager};
use crate::status::{JobStatus, JobType};

verus! {

/// One head event of the source chain, as the control loop reads it.
#[derive(Debug)]
pub struct HeadObservation {
    pub slot: u64,
    pub epoch_transition: bool,
}

/// A job the control loop decides to create.
#[derive(Clone, Copy, Debug, PartialEq, Eq, Structural)]
pub struct JobPlan {
    pub job_type: JobType,
    pub slot: u64,
    /// First epoch of a batch; 0 for a committee update.
    pub begin: u64,
    /// Last epoch of a batch; 0 for a committee update.
    pub end: u64,
}

/// Last epoch of the sync-committee period that holds epoch `e`.
pub open spec fn period_end(e: int) -> int {
    (e / EPOCHS_PER_SYNC_COMMITTEE as int) * EPOCHS_PER_SYNC_COMMITTEE as int
        + EPOCHS_PER_SYNC_COMMITTEE as int - 1
}

pub open spec fn min_int(a: int, b: int) -> int {
    if a <= b {
        a
    } else {
        b
    }
}

/// Last epoch of the batch that follows epoch `last`: at most a target batch,
/// within one sync-committee period, and not past `cap`.
pub open spec fn batch_end(last: int, cap: int) -> int {
    min_int(min_int(last + TARGET_BATCH_SIZE as int, period_end(last + 1)), cap)
}

/// The batch job over the epochs `begin..=end`, terminating at the first slot of `end`.
pub open spec fn batch_plan(begin: int, end: int) -> JobPlan {
    JobPlan {
        job_type: JobType::EpochBatchUpdate,
        slot: (end * SLOTS_PER_EPOCH as int) as u64,
        begin: begin as u64,
        end: end as u64,
    }
}

/// Catch-up batches after epoch `last`, while the job bound allows and more
/// than a target batch separates `last` from the observed epoch.
pub open spec fn catch_up_plans(last: int, observed_epoch: int, count: int) -> Seq<JobPlan>
    decreases MAX_CONCURRENT_JOBS_IN_PROGRESS as int - count,
{
    if count < MAX_CONCURRENT_JOBS_IN_PROGRESS as int && observed_epoch - last
        > TARGET_BATCH_SIZE as int {
        let e = batch_end(last, observed_epoch);
        seq![batch_plan(last + 1, e)] + catch_up_plans(e, observed_epoch, count + 1)
    } else {
        Seq::empty()
    }
}

pub open spec fn max_int(a: int, b: int) -> int {
    if a >= b {
        a
    } else {
        b
    }
}

/// Whether the tick is in catch-up mode: settlement lags more than a target
/// batch behind and the job bound leaves room.
pub open spec fn catching_up(obs: HeadObservation, latest_verified_slot: u64, count: u64) -> bool {
    let behind = epoch_of_slot(obs.slot) as int - epoch_of_slot(latest_verified_slot) as int;
    behind > TARGET_BATCH_SIZE as int && count < MAX_CONCURRENT_JOBS_IN_PROGRESS
}

/// The epoch work of one tick: in catch-up mode, full batches while more than a
/// target batch is left, else the shorter tail up to the observed epoch; in
/// steady state, on an epoch transition, the window up to the observed epoch.
pub open spec fn epoch_plans(
    obs: HeadObservation,
    latest_verified_slot: u64,
    latest_in_progress: u64,
    count: u64,
) -> Seq<JobPlan> {
    let observed_epoch = epoch_of_slot(obs.slot) as int;
    let last = max_int(latest_in_progress as int, epoch_of_slot(latest_verified_slot) as int);
    if catching_up(obs, latest_verified_slot, count) && observed_epoch - last
        > TARGET_BATCH_SIZE as int {
        catch_up_plans(last, observed_epoch, count as int)
    } else if (catching_up(obs, latest_verified_slot, count) || obs.epoch_transition) && count
        < MAX_CONCURRENT_JOBS_IN_PROGRESS && last < observed_epoch {
        seq![batch_plan(last + 1, batch_end(last, observed_epoch))]
    } else {
        Seq::empty()
    }
}

/// Whether the observed slot opens a new sync-committee period.
pub open spec fn rotates_committee(slot: u64) -> bool {
    slot > 0 && slot % SLOTS_PER_SYNC_COMMITTEE == 0
}

/// Everything one tick enqueues: the epoch work, then a committee update when
/// the observed slot opens a new period.
pub open spec fn planned(
    obs: HeadObservation,
    latest_verified_slot: u64,
    latest_in_progress: u64,
    count: u64,
) -> Seq<JobPlan> {
    epoch_plans(obs, latest_verified_slot, latest_in_progress, count) + if rotates_committee(
        obs.slot,
    ) {
        seq![JobPlan { job_type: JobType::SyncCommitteeUpdate, slot: obs.slot, begin: 0, end: 0 }]
    } else {
        Seq::<JobPlan>::empty()
    }
}

/// A planned job obeys the data model of jobs.
pub open spec fn plan_ok(p: JobPlan) -> bool {
    &&& shape_ok(p.job_type, p.slot, p.begin, p.end)
    &&& (p.job_type != JobType::EpochBatchUpdate ==> p.begin == 0 && p.end == 0)
    &&& p.job_type != JobType::EpochUpdate
}

/// Number of batch plans.
pub open spec fn batch_count(plans: Seq<JobPlan>) -> nat
    decreases plans.len(),
{
    if plans.len() == 0 {
        0
    } else {
        batch_count(plans.drop_last()) + if plans.last().job_type == JobType::EpochBatchUpdate {
            1nat
        } else {
            0nat
        }
    }
}

proof fn lemma_batch_count_single(p: JobPlan)
    ensures
        batch_count(seq![p]) == if p.job_type == JobType::EpochBatchUpdate {
            1nat
        } else {
            0nat
        },
{
    let s = seq![p];
    assert(s.drop_last() =~= Seq::<JobPlan>::empty());
    assert(s.last() == p);
    assert(batch_count(Seq::<JobPlan>::empty()) == 0);
}

proof fn lemma_batch_count_concat(a: Seq<JobPlan>, b: Seq<JobPlan>)
    ensures
        batch_count(a + b) == batch_count(a) + batch_count(b),
    decreases b.len(),
{
    if b.len() > 0 {
        assert((a + b).drop_last() =~= a + b.drop_last());
        lemma_batch_count_concat(a, b.drop_last());
    } else {
        assert(a + b =~= a);
    }
}

proof fn lemma_batch_plan_ok(last: int, cap: int)
    requires
        0 <= last < cap,
        cap * SLOTS_PER_EPOCH as int <= u64::MAX,
    ensures
        plan_ok(batch_plan(last + 1, batch_end(last, cap))),
        last + 1 <= batch_end(last, cap) <= cap,
{
    let b = last + 1;
    let e = batch_end(last, cap);
    assert(b <= e);
    assert(b / 256 == e / 256) by {
        assert(e <= (b / 256) * 256 + 255);
        assert(b >= (b / 256) * 256) by (nonlinear_arith);
        assert(e >= (b / 256) * 256);
        assert(e / 256 == b / 256) by (nonlinear_arith)
            requires
                (b / 256) * 256 <= e <= (b / 256) * 256 + 255,
        ;
    }
    assert((e * 32) / 32 == e) by (nonlinear_arith);
    assert((e * 32) % 32 == 0) by (nonlinear_arith);
    assert(e * 32 <= cap * 32) by (nonlinear_arith)
        requires
            e <= cap,
    ;
}

proof fn lemma_catch_up_facts(last: int, observed_epoch: int, count: int)
    requires
        0 <= last,
        0 <= count,
        observed_epoch * SLOTS_PER_EPOCH as int <= u64::MAX,
    ensures
        batch_count(catch_up_plans(last, observed_epoch, count)) == catch_up_plans(
            last,
            observed_epoch,
            count,
        ).len(),
        count + catch_up_plans(last, observed_epoch, count).len() <= max_int(
            count,
            MAX_CONCURRENT_JOBS_IN_PROGRESS as int,
        ),
        forall|i: int|
            0 <= i < catch_up_plans(last, observed_epoch, count).len() ==> plan_ok(
                #[trigger] catch_up_plans(last, observed_epoch, count)[i],
            ),
    decreases MAX_CONCURRENT_JOBS_IN_PROGRESS as int - count,
{
    let s = catch_up_plans(last, observed_epoch, count);
    if count < MAX_CONCURRENT_JOBS_IN_PROGRESS as int && observed_epoch - last
        > TARGET_BATCH_SIZE as int {
        let e = batch_end(last, observed_epoch);
        lemma_batch_plan_ok(last, observed_epoch);
        lemma_catch_up_facts(e, observed_epoch, count + 1);
        let rest = catch_up_plans(e, observed_epoch, count + 1);
        lemma_batch_count_concat(seq![batch_plan(last + 1, e)], rest);
        lemma_batch_count_single(batch_plan(last + 1, e));
        assert forall|i: int| 0 <= i < s.len() implies plan_ok(#[trigger] s[i]) by {
            if i > 0 {
                assert(s[i] == rest[i - 1]);
            }
        }
    }
}

/// The tick never takes the number of batch jobs in progress past the bound:
/// a tick that starts within the bound plans at most as many batches as the
/// bound leaves room for, and every planned job obeys the data model.
pub proof fn lemma_tick_respects_job_bound(
    obs: HeadObservation,
    latest_verified_slot: u64,
    latest_in_progress: u64,
    count: u64,
)
    ensures
        count <= MAX_CONCURRENT_JOBS_IN_PROGRESS ==> count + batch_count(
            planned(obs, latest_verified_slot, latest_in_progress, count),
        ) <= MAX_CONCURRENT_JOBS_IN_PROGRESS,
        forall|i: int|
            0 <= i < planned(obs, latest_verified_slot, latest_in_progress, count).len() ==> plan_ok(
                #[trigger] planned(obs, latest_verified_slot, latest_in_progress, count)[i],
            ),
{
    let observed_epoch = epoch_of_slot(obs.slot) as int;
    let last = max_int(latest_in_progress as int, epoch_of_slot(latest_verified_slot) as int);
    let ep = epoch_plans(obs, latest_verified_slot, latest_in_progress, count);
    let cp = if rotates_committee(obs.slot) {
        seq![JobPlan { job_type: JobType::SyncCommitteeUpdate, slot: obs.slot, begin: 0, end: 0 }]
    } else {
        Seq::<JobPlan>::empty()
    };
    assert(observed_epoch * 32 <= u64::MAX) by {
        assert(observed_epoch * 32 <= obs.slot) by (nonlinear_arith)
            requires
                observed_epoch == obs.slot as int / 32,
                obs.slot >= 0,
        ;
    }
    if catching_up(obs, latest_verified_slot, count) && observed_epoch - last
        > TARGET_BATCH_SIZE as int {
        lemma_catch_up_facts(last, observed_epoch, count as int);
    } else if (catching_up(obs, latest_verified_slot, count) || obs.epoch_transition) && count
        < MAX_CONCURRENT_JOBS_IN_PROGRESS && last < observed_epoch {
        lemma_batch_plan_ok(last, observed_epoch);
        lemma_batch_count_single(batch_plan(last + 1, batch_end(last, observed_epoch)));
    } else {
        assert(batch_count(ep) == 0);
    }
    lemma_batch_count_concat(ep, cp);
    lemma_batch_count_single(
        JobPlan { job_type: JobType::SyncCommitteeUpdate, slot: obs.slot, begin: 0, end: 0 },
    );
    assert(batch_count(Seq::<JobPlan>::empty()) == 0);
    let all = planned(obs, latest_verified_slot, latest_in_progress, count);
    assert(all == ep + cp);
    assert forall|i: int| 0 <= i < all.len() implies plan_ok(#[trigger] all[i]) by {
        if i >= ep.len() {
            assert(all[i] == cp[i - ep.len()]);
        } else {
            assert(all[i] == ep[i]);
        }
    }
}

/// A tick enqueues exactly one committee update when the observed slot opens a
/// new sync-committee period, and none otherwise.
pub proof fn lemma_one_committee_update_per_rotation(
    obs: HeadObservation,
    latest_verified_slot: u64,
    latest_in_progress: u64,
    count: u64,
)
    ensures
        ({
            let all = planned(obs, latest_verified_slot, latest_in_progress, count);
            let n = all.len() - batch_count(all);
            &&& rotates_committee(obs.slot) ==> n == 1
            &&& !rotates_committee(obs.slot) ==> n == 0
        }),
{
    let ep = epoch_plans(obs, latest_verified_slot, latest_in_progress, count);
    let cp = if rotates_committee(obs.slot) {
        seq![JobPlan { job_type: JobType::SyncCommitteeUpdate, slot: obs.slot, begin: 0, end: 0 }]
    } else {
        Seq::<JobPlan>::empty()
    };
    let observed_epoch = epoch_of_slot(obs.slot) as int;
    let last = max_int(latest_in_progress as int, epoch_of_slot(latest_verified_slot) as int);
    assert(observed_epoch * 32 <= u64::MAX) by {
        assert(observed_epoch * 32 <= obs.slot) by (nonlinear_arith)
            requires
                observed_epoch == obs.slot as int / 32,
                obs.slot >= 0,
        ;
    }
    if catching_up(obs, latest_verified_slot, count) && observed_epoch - last
        > TARGET_BATCH_SIZE as int {
        lemma_catch_up_facts(last, observed_epoch, count as int);
    } else if (catching_up(obs, latest_verified_slot, count) || obs.epoch_transition) && count
        < MAX_CONCURRENT_JOBS_IN_PROGRESS && last < observed_epoch {
        lemma_batch_count_single(batch_plan(last + 1, batch_end(last, observed_epoch)));
    }
    lemma_batch_count_concat(ep, cp);
    lemma_batch_count_single(
        JobPlan { job_type: JobType::SyncCommitteeUpdate, slot: obs.slot, begin: 0, end: 0 },
    );
    assert(batch_count(Seq::<JobPlan>::empty()) == 0);
}

/// With settlement `33` epochs behind the head and no batch in progress, a tick
/// enqueues a single batch that starts right after the verified epoch and holds
/// a full target batch unless a period boundary cuts it short. The next tick,
/// with that batch in progress, plans at most the remaining tail, which is no
/// longer than a target batch and starts right after it.
pub proof fn lemma_catch_up_one_batch_per_tick(obs: HeadObservation, latest_verified_slot: u64)
    requires
        epoch_of_slot(obs.slot) as int - epoch_of_slot(latest_verified_slot) as int
            == TARGET_BATCH_SIZE as int + 1,
    ensures
        ({
            let lve = epoch_of_slot(latest_verified_slot) as int;
            let oe = epoch_of_slot(obs.slot) as int;
            let ep = epoch_plans(obs, latest_verified_slot, 0, 0);
            let e = batch_end(lve, oe);
            let next = epoch_plans(obs, latest_verified_slot, e as u64, 1);
            &&& ep.len() == 1
            &&& ep[0] == batch_plan(lve + 1, e)
            &&& e == min_int(lve + TARGET_BATCH_SIZE as int, period_end(lve + 1))
            &&& next.len() <= 1
            &&& next.len() == 1 ==> next[0] == batch_plan(e + 1, batch_end(e, oe)) && batch_end(e, oe)
                - e <= TARGET_BATCH_SIZE as int
        }),
{
    let lve = epoch_of_slot(latest_verified_slot) as int;
    let oe = epoch_of_slot(obs.slot) as int;
    let e = batch_end(lve, oe);
    let ep = epoch_plans(obs, latest_verified_slot, 0, 0);
    assert(catch_up_plans(e, oe, 1) =~= Seq::<JobPlan>::empty());
    assert(ep =~= seq![batch_plan(lve + 1, e)]);
    assert(max_int(e, lve) == e);
    assert(oe - e <= TARGET_BATCH_SIZE as int);
}

proof fn lemma_catch_up_contiguous(last: int, observed_epoch: int, count: int)
    requires
        0 <= last,
        0 <= count,
        observed_epoch * SLOTS_PER_EPOCH as int <= u64::MAX,
    ensures
        ({
            let s = catch_up_plans(last, observed_epoch, count);
            &&& s.len() > 0 ==> s[0].begin == last + 1
            &&& forall|k: int| 0 <= k < s.len() ==> (#[trigger] s[k]).end <= observed_epoch
            &&& forall|k: int|
                0 <= k < s.len() - 1 ==> #[trigger] s[k + 1].begin == s[k].end + 1
        }),
    decreases MAX_CONCURRENT_JOBS_IN_PROGRESS as int - count,
{
    let s = catch_up_plans(last, observed_epoch, count);
    if count < MAX_CONCURRENT_JOBS_IN_PROGRESS as int && observed_epoch - last
        > TARGET_BATCH_SIZE as int {
        let e = batch_end(last, observed_epoch);
        lemma_batch_plan_ok(last, observed_epoch);
        lemma_catch_up_contiguous(e, observed_epoch, count + 1);
        let rest = catch_up_plans(e, observed_epoch, count + 1);
        assert forall|k: int| 0 <= k < s.len() implies (#[trigger] s[k]).end <= observed_epoch by {
            if k > 0 {
                assert(s[k] == rest[k - 1]);
            }
        }
        assert forall|k: int| 0 <= k < s.len() - 1 implies #[trigger] s[k + 1].begin == s[k].end + 1 by {
            assert(s[k + 1] == rest[k]);
            if k > 0 {
                assert(s[k] == rest[k - 1]);
                let j = k - 1;
                assert(0 <= j < rest.len() - 1);
                assert(rest[j + 1].begin == rest[j].end + 1);
            } else {
                assert(s[0] == batch_plan(last + 1, e));
                assert(rest.len() > 0);
                assert(rest[0].begin == e + 1);
            }
        }
    }
}

/// The catch-up batches of one tick start right after the latest epoch in
/// progress (or verified), follow each other without gap or overlap, never
/// pass the observed epoch, and each stays within one sync-committee period.
pub proof fn lemma_catch_up_batches_contiguous(
    obs: HeadObservation,
    latest_verified_slot: u64,
    latest_in_progress: u64,
    count: u64,
)
    ensures
        ({
            let ep = epoch_plans(obs, latest_verified_slot, latest_in_progress, count);
            let last = max_int(latest_in_progress as int, epoch_of_slot(latest_verified_slot) as int);
            &&& ep.len() > 0 ==> ep[0].begin == last + 1
            &&& forall|k: int| 0 <= k < ep.len() ==> (#[trigger] ep[k]).end <= epoch_of_slot(obs.slot)
            &&& forall|k: int| 0 <= k < ep.len() ==> plan_ok(#[trigger] ep[k])
            &&& forall|k: int| 0 <= k < ep.len() - 1 ==> #[trigger] ep[k + 1].begin == ep[k].end + 1
        }),
{
    let observed_epoch = epoch_of_slot(obs.slot) as int;
    let last = max_int(latest_in_progress as int, epoch_of_slot(latest_verified_slot) as int);
    assert(observed_epoch * 32 <= u64::MAX) by {
        assert(observed_epoch * 32 <= obs.slot) by (nonlinear_arith)
            requires
                observed_epoch == obs.slot as int / 32,
                obs.slot >= 0,
        ;
    }
    if catching_up(obs, latest_verified_slot, count) && observed_epoch - last
        > TARGET_BATCH_SIZE as int {
        lemma_catch_up_facts(last, observed_epoch, count as int);
        lemma_catch_up_contiguous(last, observed_epoch, count as int);
    } else if (catching_up(obs, latest_verified_slot, count) || obs.epoch_transition) && count
        < MAX_CONCURRENT_JOBS_IN_PROGRESS && last < observed_epoch {
        lemma_batch_plan_ok(last, observed_epoch);
    }
}

/// The jobs one tick enqueues, given the observed head, the slot settlement has
/// verified, and the store's latest batch epoch and batch count in progress.
pub fn plan_head_event(
    obs: &HeadObservation,
    latest_verified_slot: u64,
    latest_in_progress: u64,
    jobs_in_progress: u64,
) -> (r: Vec<JobPlan>)
    ensures
        r@ == planned(*obs, latest_verified_slot, latest_in_progress, jobs_in_progress),
{
    let observed_epoch = obs.slot / SLOTS_PER_EPOCH;
    let verified_epoch = latest_verified_slot / SLOTS_PER_EPOCH;
    let last = if latest_in_progress >= verified_epoch {
        latest_in_progress
    } else {
        verified_epoch
    };
    proof {
        assert(observed_epoch * 32 <= obs.slot) by (nonlinear_arith)
            requires
                observed_epoch == obs.slot as int / 32,
                obs.slot >= 0,
        ;
    }
    let mut out: Vec<JobPlan> = Vec::new();
    let catch_up = observed_epoch > verified_epoch && observed_epoch - verified_epoch
        > TARGET_BATCH_SIZE && jobs_in_progress < MAX_CONCURRENT_JOBS_IN_PROGRESS;
    if catch_up && observed_epoch > last && observed_epoch - last > TARGET_BATCH_SIZE {
        let mut cur = last;
        let mut count = jobs_in_progress;
        while count < MAX_CONCURRENT_JOBS_IN_PROGRESS && cur < observed_epoch && observed_epoch
            - cur > TARGET_BATCH_SIZE
            invariant
                observed_epoch * 32 <= u64::MAX,
                observed_epoch == obs.slot / 32,
                out@ + catch_up_plans(cur as int, observed_epoch as int, count as int)
                    == catch_up_plans(last as int, observed_epoch as int, jobs_in_progress as int),
            decreases MAX_CONCURRENT_JOBS_IN_PROGRESS - count,
        {
            let e = next_batch_end(cur, observed_epoch);
            let ghost before = out@;
            out.push(
                JobPlan {
                    job_type: JobType::EpochBatchUpdate,
                    slot: e * SLOTS_PER_EPOCH,
                    begin: cur + 1,
                    end: e,
                },
            );
            proof {
                let rest = catch_up_plans(e as int, observed_epoch as int, count + 1);
                assert(catch_up_plans(cur as int, observed_epoch as int, count as int) == seq![
                    batch_plan(cur + 1, e as int),
                ] + rest);
                assert(out@ + rest =~= before + (seq![batch_plan(cur + 1, e as int)] + rest));
            }
            cur = e;
            count = count + 1;
        }
        proof {
            assert(catch_up_plans(cur as int, observed_epoch as int, count as int)
                =~= Seq::<JobPlan>::empty());
            assert(out@ + Seq::<JobPlan>::empty() =~= out@);
        }
    } else if (catch_up || obs.epoch_transition) && jobs_in_progress
        < MAX_CONCURRENT_JOBS_IN_PROGRESS && last < observed_epoch {
        let e = next_batch_end(last, observed_epoch);
        out.push(
            JobPlan {
                job_type: JobType::EpochBatchUpdate,
                slot: e * SLOTS_PER_EPOCH,
                begin: last + 1,
                end: e,
            },
        );
        assert(out@ =~= seq![batch_plan(last + 1, e as int)]);
    }
    let ghost ep = out@;
    assert(ep == epoch_plans(*obs, latest_verified_slot, latest_in_progress, jobs_in_progress));
    if obs.slot > 0 && obs.slot % SLOTS_PER_SYNC_COMMITTEE == 0 {
        out.push(
            JobPlan { job_type: JobType::SyncCommitteeUpdate, slot: obs.slot, begin: 0, end: 0 },
        );
    }
    assert(out@ =~= planned(*obs, latest_verified_slot, latest_in_progress, jobs_in_progress));
    out
}

/// Last epoch of the batch that follows epoch `last`, capped at `cap`.
fn next_batch_end(last: u64, cap: u64) -> (r: u64)
    requires
        last < cap,
        cap * 32 <= u64::MAX,
    ensures
        r == batch_end(last as int, cap as int),
        last < r <= cap,
{
    let period_last = (last + 1) / EPOCHS_PER_SYNC_COMMITTEE * EPOCHS_PER_SYNC_COMMITTEE
        + (EPOCHS_PER_SYNC_COMMITTEE - 1);
    let mut e = if cap - last >= TARGET_BATCH_SIZE {
        last + TARGET_BATCH_SIZE
    } else {
        cap
    };
    if period_last < e {
        e = period_last;
    }
    proof {
        let b = last as int + 1;
        assert((b / 256) * 256 <= b) by (nonlinear_arith);
        assert((b / 256) * 256 + 255 >= b) by (nonlinear_arith);
    }
    e
}

/// Relies on uuid::Uuid::new_v4 and Uuid::as_u128: a random identifier whose
/// version field reads 4 and whose variant bits read 0b10.
#[verifier::external_body]
fn new_job_id() -> (r: u128)
    ensures
        (r >> 76u128) & 0xfu128 == 4,
        (r >> 62u128) & 0x3u128 == 2,
{
    uuid::Uuid::new_v4().as_u128()
}

/// The job a plan becomes under the given id.
pub open spec fn job_of_plan(p: JobPlan, id: u128) -> Job {
    Job {
        job_id: id,
        job_type: p.job_type,
        job_status: JobStatus::Created,
        slot: p.slot,
        batch_range_begin_epoch: if p.job_type == JobType::EpochBatchUpdate {
            Some(p.begin)
        } else {
            None
        },
        batch_range_end_epoch: if p.job_type == JobType::EpochBatchUpdate {
            Some(p.end)
        } else {
            None
        },
    }
}

/// The plan a job was made from.
pub open spec fn plan_of_job(j: Job) -> JobPlan {
    JobPlan { job_type: j.job_type, slot: j.slot, begin: j.range_begin(), end: j.range_end() }
}

proof fn lemma_count_push(jobs: Seq<JobSchema>, row: JobSchema)
    ensures
        count_in_progress(jobs.push(row), jobs.len() + 1int) == count_in_progress(jobs, jobs.len() as int)
            + if crate::store::batch_in_progress(row) {
            1nat
        } else {
            0nat
        },
{
    lemma_count_prefix(jobs, jobs.push(row), jobs.len() as int);
}

proof fn lemma_count_prefix(a: Seq<JobSchema>, b: Seq<JobSchema>, n: int)
    requires
        0 <= n <= a.len(),
        n <= b.len(),
        forall|i: int| 0 <= i < n ==> a[i] == b[i],
    ensures
        count_in_progress(a, n) == count_in_progress(b, n),
    decreases n,
{
    if n > 0 {
        lemma_count_prefix(a, b, n - 1);
    }
}

/// Whether some row of `jobs` carries the id.
pub open spec fn id_taken(jobs: Seq<JobSchema>, id: u128) -> bool {
    exists|i: int| 0 <= i < jobs.len() && jobs[i].job_uuid == id
}

/// The rows that a list of jobs is stored as.
pub open spec fn rows_of(jobs: Seq<Job>) -> Seq<JobSchema> {
    jobs.map_values(|j: Job| row_of_job(j))
}

/// The jobs stored when the first `n` plans are stored in order, plan `k`
/// under `ids[k]`, on top of the rows `existing`: a plan is stored exactly when
/// its id is free (neither among the existing rows nor among the jobs stored
/// before it) and the job obeys the data model.
pub open spec fn stored_plans(
    existing: Seq<JobSchema>,
    plans: Seq<JobPlan>,
    ids: Seq<u128>,
    n: int,
) -> Seq<Job>
    decreases n,
{
    if n <= 0 {
        Seq::empty()
    } else {
        let prev = stored_plans(existing, plans, ids, n - 1);
        let job = job_of_plan(plans[n - 1], ids[n - 1]);
        if !id_taken(existing + rows_of(prev), ids[n - 1]) && job.wf() {
            prev.push(job)
        } else {
            prev
        }
    }
}

proof fn lemma_plan_job(p: JobPlan, id: u128)
    requires
        plan_ok(p),
    ensures
        job_of_plan(p, id).wf(),
        plan_of_job(job_of_plan(p, id)) == p,
{
}

/// Later plans only add to the jobs stored for earlier ones.
proof fn lemma_stored_prefix(
    existing: Seq<JobSchema>,
    plans: Seq<JobPlan>,
    ids: Seq<u128>,
    m: int,
    n: int,
)
    requires
        0 <= m <= n,
    ensures
        stored_plans(existing, plans, ids, m).len() <= stored_plans(existing, plans, ids, n).len(),
        forall|k: int|
            0 <= k < stored_plans(existing, plans, ids, m).len() ==> #[trigger] stored_plans(
                existing,
                plans,
                ids,
                n,
            )[k] == stored_plans(existing, plans, ids, m)[k],
    decreases n - m,
{
    if m < n {
        lemma_stored_prefix(existing, plans, ids, m, n - 1);
    }
}

/// With every plan well formed and every id fresh and distinct, every plan is
/// stored, in order.
proof fn lemma_all_stored(existing: Seq<JobSchema>, plans: Seq<JobPlan>, ids: Seq<u128>, n: int)
    requires
        0 <= n <= plans.len(),
        plans.len() == ids.len(),
        forall|k: int| 0 <= k < plans.len() ==> plan_ok(#[trigger] plans[k]),
        forall|k: int| 0 <= k < ids.len() ==> !id_taken(existing, #[trigger] ids[k]),
        forall|j: int, k: int| 0 <= j < k < ids.len() ==> ids[j] != ids[k],
    ensures
        stored_plans(existing, plans, ids, n).len() == n,
        forall|k: int|
            0 <= k < n ==> #[trigger] stored_plans(existing, plans, ids, n)[k] == job_of_plan(
                plans[k],
                ids[k],
            ),
    decreases n,
{
    if n > 0 {
        lemma_all_stored(existing, plans, ids, n - 1);
        let prev = stored_plans(existing, plans, ids, n - 1);
        let all = existing + rows_of(prev);
        lemma_plan_job(plans[n - 1], ids[n - 1]);
        assert(!id_taken(existing, ids[n - 1]));
        assert forall|i: int| 0 <= i < all.len() implies all[i].job_uuid != ids[n - 1] by {
            if i >= existing.len() {
                let k = i - existing.len();
                assert(prev[k] == job_of_plan(plans[k], ids[k]));
                assert(all[i] == row_of_job(prev[k]));
            } else {
                assert(all[i] == existing[i]);
            }
        }
    }
}

/// Stores the plans in order, plan `k` under `ids[k]`. A plan is stored exactly
/// when its id is free and the job obeys the data model; the others are left
/// out. Returns the jobs that were stored.
pub fn store_plans(store: &mut DatabaseManager, plans: &Vec<JobPlan>, ids: &Vec<u128>) -> (r: Vec<Job>)
    requires
        old(store).wf(),
        plans@.len() == ids@.len(),
    ensures
        final(store).wf(),
        crate::store::statuses_advance(old(store).jobs@, final(store).jobs@),
        r@ == stored_plans(old(store).jobs@, plans@, ids@, plans@.len() as int),
        final(store).jobs@ == old(store).jobs@ + rows_of(r@),
        (forall|k: int| 0 <= k < plans@.len() ==> plan_ok(#[trigger] plans@[k])) && (forall|k: int|
            0 <= k < ids@.len() ==> !id_taken(old(store).jobs@, #[trigger] ids@[k])) && (forall|
            j: int,
            k: int,
        | 0 <= j < k < ids@.len() ==> ids@[j] != ids@[k]) ==> r@.len() == plans@.len() && forall|
            k: int,
        | 0 <= k < plans@.len() ==> plan_of_job(#[trigger] r@[k]) == plans@[k],
        count_in_progress(final(store).jobs@, final(store).jobs@.len() as int) <= count_in_progress(
            old(store).jobs@,
            old(store).jobs@.len() as int,
        ) + batch_count(plans@),
        final(store).verified_epochs@ == old(store).verified_epochs@,
        final(store).verified_sync_committees@ == old(store).verified_sync_committees@,
        final(store).merkle_paths@ == old(store).merkle_paths@,
{
    let ghost old_jobs = store.jobs@;
    let mut created: Vec<Job> = Vec::new();
    let mut i: usize = 0;
    while i < plans.len()
        invariant
            i <= plans@.len(),
            plans@.len() == ids@.len(),
            store.wf(),
            old_jobs == old(store).jobs@,
            crate::store::statuses_advance(old_jobs, store.jobs@),
            created@ == stored_plans(old_jobs, plans@, ids@, i as int),
            store.jobs@ == old_jobs + rows_of(created@),
            count_in_progress(store.jobs@, store.jobs@.len() as int) <= count_in_progress(
                old_jobs,
                old_jobs.len() as int,
            ) + batch_count(plans@.subrange(0, i as int)),
            store.verified_epochs@ == old(store).verified_epochs@,
            store.verified_sync_committees@ == old(store).verified_sync_committees@,
            store.merkle_paths@ == old(store).merkle_paths@,
        decreases plans@.len() - i,
    {
        let p = plans[i];
        let id = ids[i];
        let job = Job {
            job_id: id,
            job_type: p.job_type,
            job_status: JobStatus::Created,
            slot: p.slot,
            batch_range_begin_epoch: if p.job_type == JobType::EpochBatchUpdate {
                Some(p.begin)
            } else {
                None
            },
            batch_range_end_epoch: if p.job_type == JobType::EpochBatchUpdate {
                Some(p.end)
            } else {
                None
            },
        };
        assert(job == job_of_plan(p, id));
        let kept = copy_job(&job);
        let ghost jobs_before = store.jobs@;
        let ghost created_before = created@;
        proof {
            assert(plans@.subrange(0, i + 1).drop_last() =~= plans@.subrange(0, i as int));
            assert(plans@.subrange(0, i + 1).last() == p);
            assert(store.has_job(id) == id_taken(jobs_before, id));
        }
        match store.create_job(job) {
            Ok(()) => {
                created.push(kept);
                proof {
                    lemma_count_push(jobs_before, row_of_job(kept));
                    assert(rows_of(created@) =~= rows_of(created_before).push(row_of_job(kept)));
                    assert(store.jobs@ =~= old_jobs + rows_of(created@));
                }
            },
            Err(_) => {},
        }
        proof {
            crate::store::lemma_statuses_advance_compose(old_jobs, jobs_before, store.jobs@);
        }
        i = i + 1;
    }
    proof {
        assert(plans@.subrange(0, plans@.len() as int) =~= plans@);
        if (forall|k: int| 0 <= k < plans@.len() ==> plan_ok(#[trigger] plans@[k])) && (forall|k: int|
            0 <= k < ids@.len() ==> !id_taken(old_jobs, #[trigger] ids@[k])) && (forall|j: int, k: int|
            0 <= j < k < ids@.len() ==> ids@[j] != ids@[k]) {
            lemma_all_stored(old_jobs, plans@, ids@, plans@.len() as int);
            assert forall|k: int| 0 <= k < plans@.len() implies plan_of_job(#[trigger] created@[k])
                == plans@[k] by {
                lemma_plan_job(plans@[k], ids@[k]);
            }
        }
    }
    created
}

/// One tick of the control loop: reads the store, plans, draws a fresh random
/// id for each plan, and stores the plans. A plan whose drawn id is already
/// taken is left out (the next tick plans it again). Returns the jobs that
/// were stored, to be handed to the dispatcher.
pub fn run_control_tick(
    store: &mut DatabaseManager,
    obs: &HeadObservation,
    latest_verified_slot: u64,
) -> (r: Vec<Job>)
    requires
        old(store).wf(),
    ensures
        final(store).wf(),
        crate::store::statuses_advance(old(store).jobs@, final(store).jobs@),
        ({
            let plans = planned(
                *obs,
                latest_verified_slot,
                latest_epoch_in_progress(old(store).jobs@, old(store).jobs@.len() as int),
                old(store).spec_count_in_progress() as u64,
            );
            &&& exists|ids: Seq<u128>|
                ids.len() == plans.len() && r@ == #[trigger] stored_plans(
                    old(store).jobs@,
                    plans,
                    ids,
                    plans.len() as int,
                )
            &&& old(store).jobs@.len() == 0 && plans.len() > 0 ==> r@.len() >= 1 && plan_of_job(r@[0])
                == plans[0]
        }),
        final(store).jobs@ == old(store).jobs@ + rows_of(r@),
        old(store).spec_count_in_progress() <= MAX_CONCURRENT_JOBS_IN_PROGRESS
            ==> final(store).spec_count_in_progress() <= MAX_CONCURRENT_JOBS_IN_PROGRESS,
        final(store).verified_epochs@ == old(store).verified_epochs@,
        final(store).verified_sync_committees@ == old(store).verified_sync_committees@,
        final(store).merkle_paths@ == old(store).merkle_paths@,
{
    let latest = store.get_latest_epoch_in_progress();
    let count = store.count_jobs_in_progress();
    let plans = plan_head_event(obs, latest_verified_slot, latest, count);
    proof {
        lemma_tick_respects_job_bound(*obs, latest_verified_slot, latest, count);
    }
    let mut ids: Vec<u128> = Vec::new();
    let mut i: usize = 0;
    while i < plans.len()
        invariant
            i <= plans@.len(),
            ids@.len() == i,
        decreases plans@.len() - i,
    {
        ids.push(new_job_id());
        i = i + 1;
    }
    let ghost old_jobs = store.jobs@;
    let created = store_plans(store, &plans, &ids);
    proof {
        let n = plans@.len() as int;
        assert(created@ == stored_plans(old_jobs, plans@, ids@, n));
        if old_jobs.len() == 0 && n > 0 {
            lemma_plan_job(plans@[0], ids@[0]);
            assert(!id_taken(old_jobs + rows_of(Seq::<Job>::empty()), ids@[0]));
            assert(stored_plans(old_jobs, plans@, ids@, 0) =~= Seq::<Job>::empty());
            assert(stored_plans(old_jobs, plans@, ids@, 1) == seq![job_of_plan(plans@[0], ids@[0])]);
            lemma_stored_prefix(old_jobs, plans@, ids@, 1, n);
            assert(created@[0] == job_of_plan(plans@[0], ids@[0]));
        }
    }
    created
}

/// A copy of a job.
pub fn copy_job(j: &Job) -> (r: Job)
    ensures
        r == *j,
{
    Job {
        job_id: j.job_id,
        job_type: j.job_type,
        job_status: j.job_status,
        slot: j.slot,
        batch_range_begin_epoch: j.batch_range_begin_epoch,
        batch_range_end_epoch: j.batch_range_end_epoch,
    }
}

} // verus!
