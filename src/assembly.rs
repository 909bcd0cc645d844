use vstd::prelude::*;
use crate::hex::{hash_to_hex, hex_of};
use crate::merkle::{batch_commitment, batch_path, batch_root, BatchCommitment};
use crate::dispatcher::{advanced, StepOutcome};
use crate::error::Error;
use crate::job::JobSchema;
use crate::status::{JobStatus, JobType};
use crate::store::{count_paths, paths_of, DatabaseManager, EpochMerklePath};

verus! {

/// The hex rows of one inclusion path, in path order.
pub open spec fn path_rows(path: Seq<[u8; 32]>) -> Seq<Seq<char>> {
    path.map_values(|h: [u8; 32]| hex_of(h@))
}

/// The text views of stored path steps.
pub open spec fn texts(s: Seq<String>) -> Seq<Seq<char>> {
    s.map_values(|t: String| t@)
}

proof fn lemma_paths_push(s: Seq<EpochMerklePath>, x: EpochMerklePath, e: u64)
    ensures
        paths_of(s.push(x), e, s.len() + 1int) == if x.epoch_id == e {
            paths_of(s, e, s.len() as int).push(x.merkle_path)
        } else {
            paths_of(s, e, s.len() as int)
        },
        count_paths(s.push(x), e, s.len() + 1int) == count_paths(s, e, s.len() as int) + if x.epoch_id
            == e {
            1nat
        } else {
            0nat
        },
{
    lemma_paths_prefix(s, s.push(x), e, s.len() as int);
}

proof fn lemma_paths_prefix(a: Seq<EpochMerklePath>, b: Seq<EpochMerklePath>, e: u64, n: int)
    requires
        0 <= n <= a.len(),
        n <= b.len(),
        forall|i: int| 0 <= i < n ==> a[i] == b[i],
    ensures
        paths_of(a, e, n) == paths_of(b, e, n),
        count_paths(a, e, n) == count_paths(b, e, n),
    decreases n,
{
    if n > 0 {
        lemma_paths_prefix(a, b, e, n - 1);
    }
}

proof fn lemma_count_is_len(s: Seq<EpochMerklePath>, e: u64, n: int)
    requires
        0 <= n <= s.len(),
    ensures
        paths_of(s, e, n).len() == count_paths(s, e, n),
    decreases n,
{
    if n > 0 {
        lemma_count_is_len(s, e, n - 1);
    }
}

proof fn lemma_texts_push(x: Seq<String>, t: String)
    ensures
        texts(x.push(t)) == texts(x).push(t@),
{
    assert(texts(x.push(t)) =~= texts(x).push(t@));
}

proof fn lemma_rows_push(p: Seq<[u8; 32]>, k: int)
    requires
        0 <= k < p.len(),
    ensures
        path_rows(p.subrange(0, k + 1)) == path_rows(p.subrange(0, k)).push(hex_of(p[k]@)),
{
    assert(path_rows(p.subrange(0, k + 1)) =~= path_rows(p.subrange(0, k)).push(hex_of(p[k]@)));
}

/// The path rows of epoch `e` in `cur` compared with those in `start`: once the
/// epoch is `done`, an epoch that had none holds `expected`; otherwise they are
/// as they were.
pub open spec fn epoch_rows(
    start: Seq<EpochMerklePath>,
    cur: Seq<EpochMerklePath>,
    e: u64,
    expected: Seq<[u8; 32]>,
    done: bool,
) -> bool {
    let before = paths_of(start, e, start.len() as int);
    let now = paths_of(cur, e, cur.len() as int);
    if done && before.len() == 0 {
        texts(now) == path_rows(expected)
    } else {
        now == before
    }
}

impl DatabaseManager {
    /// Stores the inclusion path of every epoch of a batch that starts at
    /// `begin_epoch`, one row per path step, as hex text. An epoch that already
    /// has path rows keeps them; this makes re-running the assembly harmless.
    pub fn record_batch_paths(&mut self, begin_epoch: u64, paths: &Vec<Vec<[u8; 32]>>)
        requires
            old(self).wf(),
            begin_epoch + paths@.len() <= u64::MAX,
        ensures
            final(self).wf(),
            final(self).jobs@ == old(self).jobs@,
            final(self).verified_epochs@ == old(self).verified_epochs@,
            final(self).verified_sync_committees@ == old(self).verified_sync_committees@,
            forall|i: int|
                0 <= i < paths@.len() ==> epoch_rows(
                    old(self).merkle_paths@,
                    final(self).merkle_paths@,
                    (begin_epoch + i) as u64,
                    #[trigger] paths@[i]@,
                    true,
                ),
    {
        let ghost start = self.merkle_paths@;
        let mut i: usize = 0;
        while i < paths.len()
            invariant
                i <= paths@.len(),
                begin_epoch + paths@.len() <= u64::MAX,
                self.wf(),
                self.jobs@ == old(self).jobs@,
                self.verified_epochs@ == old(self).verified_epochs@,
                self.verified_sync_committees@ == old(self).verified_sync_committees@,
                start == old(self).merkle_paths@,
                forall|a: int|
                    0 <= a < paths@.len() ==> epoch_rows(
                        start,
                        self.merkle_paths@,
                        (begin_epoch + a) as u64,
                        #[trigger] paths@[a]@,
                        a < i,
                    ),
            decreases paths@.len() - i,
        {
            let epoch = begin_epoch + i as u64;
            let existing = self.count_merkle_paths_for_epoch(epoch);
            proof {
                lemma_count_is_len(self.merkle_paths@, epoch, self.merkle_paths@.len() as int);
                assert(epoch_rows(start, self.merkle_paths@, epoch, paths@[i as int]@, false));
            }
            if existing == 0 {
                let path = &paths[i];
                let mut k: usize = 0;
                while k < path.len()
                    invariant
                        k <= path@.len(),
                        *path == paths@[i as int],
                        i < paths@.len(),
                        epoch == begin_epoch + i,
                        begin_epoch + paths@.len() <= u64::MAX,
                        self.wf(),
                        self.jobs@ == old(self).jobs@,
                        self.verified_epochs@ == old(self).verified_epochs@,
                        self.verified_sync_committees@ == old(self).verified_sync_committees@,
                        start == old(self).merkle_paths@,
                        paths_of(start, epoch, start.len() as int).len() == 0,
                        count_paths(self.merkle_paths@, epoch, self.merkle_paths@.len() as int) == k,
                        texts(paths_of(self.merkle_paths@, epoch, self.merkle_paths@.len() as int))
                            == path_rows(path@.subrange(0, k as int)),
                        forall|a: int|
                            0 <= a < paths@.len() && a != i ==> epoch_rows(
                                start,
                                self.merkle_paths@,
                                (begin_epoch + a) as u64,
                                #[trigger] paths@[a]@,
                                a < i,
                            ),
                    decreases path@.len() - k,
                {
                    let text = hash_to_hex(&path[k]);
                    let ghost old_paths = self.merkle_paths@;
                    let ghost row = EpochMerklePath {
                        epoch_id: epoch,
                        path_index: k as u64,
                        merkle_path: text,
                    };
                    let ghost text_view = text@;
                    let r = self.insert_merkle_path_for_epoch(epoch, k as u64, text);
                    proof {
                        assert(self.merkle_paths@ == old_paths.push(row));
                        lemma_paths_push(old_paths, row, epoch);
                        lemma_texts_push(paths_of(old_paths, epoch, old_paths.len() as int), row.merkle_path);
                        lemma_rows_push(path@, k as int);
                        assert forall|a: int|
                            0 <= a < paths@.len() && a != i implies epoch_rows(
                            start,
                            self.merkle_paths@,
                            (begin_epoch + a) as u64,
                            #[trigger] paths@[a]@,
                            a < i,
                        ) by {
                            lemma_paths_push(old_paths, row, (begin_epoch + a) as u64);
                            assert(epoch_rows(start, old_paths, (begin_epoch + a) as u64, paths@[a]@, a < i));
                        }
                    }
                    k = k + 1;
                }
                proof {
                    assert(path@.subrange(0, path@.len() as int) =~= path@);
                }
            }
            proof {
                assert forall|a: int|
                    0 <= a < paths@.len() implies epoch_rows(
                    start,
                    self.merkle_paths@,
                    (begin_epoch + a) as u64,
                    #[trigger] paths@[a]@,
                    a < i + 1,
                ) by {
                    if a == i as int {
                    } else {
                        assert(epoch_rows(start, self.merkle_paths@, (begin_epoch + a) as u64, paths@[a]@, a < i));
                    }
                }
            }
            i = i + 1;
        }
    }
}

/// The Merkle commitment of a batch whose header roots are given in epoch
/// order, with the path rows of each epoch stored from `begin_epoch` on.
pub fn commit_batch(
    store: &mut DatabaseManager,
    begin_epoch: u64,
    header_roots: &Vec<[u8; 32]>,
) -> (r: BatchCommitment)
    requires
        old(store).wf(),
        header_roots@.len() > 0,
        header_roots@.len() <= usize::MAX / 2,
        begin_epoch + header_roots@.len() <= u64::MAX,
    ensures
        final(store).wf(),
        r.root == batch_root(header_roots@),
        r.paths@.len() == header_roots@.len(),
        forall|i: int|
            0 <= i < header_roots@.len() ==> #[trigger] r.paths@[i]@ == batch_path(header_roots@, i),
        final(store).jobs@ == old(store).jobs@,
        forall|i: int|
            0 <= i < header_roots@.len() ==> epoch_rows(
                old(store).merkle_paths@,
                final(store).merkle_paths@,
                (begin_epoch + i) as u64,
                #[trigger] batch_path(header_roots@, i),
                true,
            ),
{
    let c = batch_commitment(header_roots);
    store.record_batch_paths(begin_epoch, &c.paths);
    proof {
        assert forall|i: int| 0 <= i < header_roots@.len() implies epoch_rows(
            old(store).merkle_paths@,
            store.merkle_paths@,
            (begin_epoch + i) as u64,
            #[trigger] batch_path(header_roots@, i),
            true,
        ) by {
            assert(c.paths@[i]@ == batch_path(header_roots@, i));
            assert(epoch_rows(old(store).merkle_paths@, store.merkle_paths@, (begin_epoch + i) as u64, c.paths@[i]@, true));
        }
    }
    c
}

/// The batch row whose inputs are being assembled from these header roots.
pub open spec fn assembling_batch(j: JobSchema, header_roots: Seq<[u8; 32]>) -> bool {
    &&& j.job_type == JobType::EpochBatchUpdate
    &&& j.job_status == JobStatus::Created
    &&& header_roots.len() == j.batch_range_end_epoch - j.batch_range_begin_epoch + 1
}

/// The input-assembly step of a batch job: commits the header roots of its
/// epochs (in epoch order), stores each epoch's path rows, and only then moves
/// the job to fetched-proof. Fails, changing nothing, when the job is unknown,
/// is not a batch still to be assembled, or the roots do not cover its range.
pub fn assemble_batch_inputs(
    store: &mut DatabaseManager,
    id: u128,
    header_roots: &Vec<[u8; 32]>,
) -> (r: Result<BatchCommitment, Error>)
    requires
        old(store).wf(),
    ensures
        final(store).wf(),
        crate::store::statuses_advance(old(store).jobs@, final(store).jobs@),
        r is Ok <==> old(store).has_job(id) && assembling_batch(old(store).job_row(id), header_roots@),
        r is Err ==> *final(store) == *old(store) && r->Err_0 is DatabaseError,
        r is Ok ==> ({
            let j = old(store).job_row(id);
            let c = r->Ok_0;
            &&& final(store).jobs@ == old(store).jobs@.update(
                old(store).job_index(id),
                advanced(j, StepOutcome::InputsAssembled),
            )
            &&& advanced(j, StepOutcome::InputsAssembled).job_status == JobStatus::FetchedProof
            &&& c.root == batch_root(header_roots@)
            &&& forall|i: int|
                0 <= i < header_roots@.len() ==> #[trigger] c.paths@[i]@ == batch_path(header_roots@, i)
                    && c.paths@[i]@.len() == c.paths@[0]@.len()
            &&& forall|i: int|
                0 <= i < header_roots@.len() ==> epoch_rows(
                    old(store).merkle_paths@,
                    final(store).merkle_paths@,
                    (j.batch_range_begin_epoch + i) as u64,
                    #[trigger] batch_path(header_roots@, i),
                    true,
                )
        }),
{
    let i = match store.find_job(id) {
        Some(i) => i,
        None => {
            return Err(Error::DatabaseError(String::from_str("no such job")));
        },
    };
    let begin = store.jobs[i].batch_range_begin_epoch;
    let end = store.jobs[i].batch_range_end_epoch;
    if store.jobs[i].job_type != JobType::EpochBatchUpdate || store.jobs[i].job_status
        != JobStatus::Created || end < begin || header_roots.len() as u64 != end - begin + 1 {
        return Err(Error::DatabaseError(String::from_str("job is not a batch awaiting its inputs")));
    }
    proof {
        assert(crate::job::row_wf(store.jobs@[i as int]));
    }
    let ghost before = *store;
    let c = commit_batch(store, begin, header_roots);
    let ghost middle = store.merkle_paths@;
    assert(store.jobs@ == before.jobs@);
    assert(store.has_job(id));
    assert(store.job_index(id) == before.job_index(id));
    let r = store.apply_outcome(id, StepOutcome::InputsAssembled);
    proof {
        assert(r is Ok);
        assert(store.merkle_paths@ == middle);
        assert forall|k: int| 0 <= k < header_roots@.len() implies #[trigger] c.paths@[k]@
            == batch_path(header_roots@, k) && c.paths@[k]@.len() == c.paths@[0]@.len() by {
            crate::merkle::lemma_batch_paths_same_depth(header_roots@, k, 0);
        }
    }
    Ok(c)
}

} // verus!
