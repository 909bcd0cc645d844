use vstd::prelude::*;

verus! {

/// Status of a job. The on-path statuses are listed in the order a job passes
/// through them; `Error` and `Cancelled` are the off-path exits.
#[derive(Clone, Copy, Debug, PartialEq, Eq, Structural)]
pub enum JobStatus {
    Created,
    FetchedProof,
    PieGenerated,
    OffchainProofRequested,
    OffchainProofRetrieved,
    WrapProofRequested,
    WrappedProofDone,
    OffchainComputationFinished,
    ReadyToBroadcastOnchain,
    ProofVerifyCalledOnchain,
    VerifiedFactRegistered,
    Done,
    Error,
    Cancelled,
}

/// The kind of work a job does.
#[derive(Clone, Copy, Debug, PartialEq, Eq, Structural)]
pub enum JobType {
    EpochUpdate,
    EpochBatchUpdate,
    SyncCommitteeUpdate,
}

/// The two kinds of prover query a job records.
#[derive(Clone, Copy, Debug, PartialEq, Eq, Structural)]
pub enum AtlanticJobType {
    ProofGeneration,
    ProofWrapping,
}

/// Position of an on-path status in the order of the taxonomy.
pub open spec fn rank(s: JobStatus) -> int {
    match s {
        JobStatus::Created => 0,
        JobStatus::FetchedProof => 1,
        JobStatus::PieGenerated => 2,
        JobStatus::OffchainProofRequested => 3,
        JobStatus::OffchainProofRetrieved => 4,
        JobStatus::WrapProofRequested => 5,
        JobStatus::WrappedProofDone => 6,
        JobStatus::OffchainComputationFinished => 7,
        JobStatus::ReadyToBroadcastOnchain => 8,
        JobStatus::ProofVerifyCalledOnchain => 9,
        JobStatus::VerifiedFactRegistered => 10,
        JobStatus::Done => 11,
        JobStatus::Error => 12,
        JobStatus::Cancelled => 13,
    }
}

/// A status on the forward path (neither `Error` nor `Cancelled`).
pub open spec fn on_path(s: JobStatus) -> bool {
    s != JobStatus::Error && s != JobStatus::Cancelled
}

/// A status after which nothing more happens to the job.
pub open spec fn terminal(s: JobStatus) -> bool {
    s == JobStatus::Done || s == JobStatus::Error || s == JobStatus::Cancelled
}

/// A lawful change of status: forward along the path, or from a non-terminal
/// status to one of the two exits.
pub open spec fn may_transition(from: JobStatus, to: JobStatus) -> bool {
    &&& !terminal(from)
    &&& (!on_path(to) || rank(to) > rank(from))
}

/// A lawful chain of status changes never leads back: two lawful changes in a
/// row are one lawful change, and a terminal status has no lawful successor.
pub proof fn lemma_status_monotonic(a: JobStatus, b: JobStatus, c: JobStatus)
    ensures
        may_transition(a, b) && may_transition(b, c) ==> may_transition(a, c),
        may_transition(a, b) && on_path(b) ==> rank(a) < rank(b),
        terminal(a) ==> !may_transition(a, b),
{
}

pub open spec fn status_name(s: JobStatus) -> Seq<char> {
    match s {
        JobStatus::Created => "CREATED"@,
        JobStatus::FetchedProof => "FETCHED_PROOF"@,
        JobStatus::PieGenerated => "PIE_GENERATED"@,
        JobStatus::OffchainProofRequested => "OFFCHAIN_PROOF_REQUESTED"@,
        JobStatus::OffchainProofRetrieved => "OFFCHAIN_PROOF_RETRIEVED"@,
        JobStatus::WrapProofRequested => "WRAP_PROOF_REQUESTED"@,
        JobStatus::WrappedProofDone => "WRAPPED_PROOF_DONE"@,
        JobStatus::OffchainComputationFinished => "OFFCHAIN_COMPUTATION_FINISHED"@,
        JobStatus::ReadyToBroadcastOnchain => "READY_TO_BROADCAST_ONCHAIN"@,
        JobStatus::ProofVerifyCalledOnchain => "PROOF_VERIFY_CALLED_ONCHAIN"@,
        JobStatus::VerifiedFactRegistered => "VERIFIED_FACT_REGISTERED"@,
        JobStatus::Done => "DONE"@,
        JobStatus::Error => "ERROR"@,
        JobStatus::Cancelled => "CANCELLED"@,
    }
}

/// The status whose name is `t`, if any.
pub open spec fn status_named(t: Seq<char>) -> Option<JobStatus> {
    if exists|s: JobStatus| status_name(s) == t {
        Some(choose|s: JobStatus| status_name(s) == t)
    } else {
        None
    }
}

/// Character-wise equality of two strings.
pub fn same_text(a: &str, b: &str) -> (r: bool)
    ensures
        r == (a@ == b@),
{
    let n = a.unicode_len();
    if n != b.unicode_len() {
        return false;
    }
    let mut i: usize = 0;
    while i < n
        invariant
            n == a@.len(),
            n == b@.len(),
            i <= n,
            forall|k: int| 0 <= k < i ==> a@[k] == b@[k],
        decreases n - i,
    {
        if a.get_char(i) != b.get_char(i) {
            return false;
        }
        i = i + 1;
    }
    assert(a@ =~= b@);
    true
}

impl JobStatus {
    /// Whether the job can still make progress.
    pub fn is_terminal(&self) -> (r: bool)
        ensures
            r == terminal(*self),
    {
        match self {
            JobStatus::Done | JobStatus::Error | JobStatus::Cancelled => true,
            _ => false,
        }
    }

    /// Position of the status in the order of the taxonomy.
    pub fn rank(&self) -> (r: u8)
        ensures
            r as int == rank(*self),
    {
        match self {
            JobStatus::Created => 0,
            JobStatus::FetchedProof => 1,
            JobStatus::PieGenerated => 2,
            JobStatus::OffchainProofRequested => 3,
            JobStatus::OffchainProofRetrieved => 4,
            JobStatus::WrapProofRequested => 5,
            JobStatus::WrappedProofDone => 6,
            JobStatus::OffchainComputationFinished => 7,
            JobStatus::ReadyToBroadcastOnchain => 8,
            JobStatus::ProofVerifyCalledOnchain => 9,
            JobStatus::VerifiedFactRegistered => 10,
            JobStatus::Done => 11,
            JobStatus::Error => 12,
            JobStatus::Cancelled => 13,
        }
    }

    /// Whether moving from this status to `to` is a lawful change.
    pub fn can_transition_to(&self, to: JobStatus) -> (r: bool)
        ensures
            r == may_transition(*self, to),
    {
        if self.is_terminal() {
            return false;
        }
        match to {
            JobStatus::Error | JobStatus::Cancelled => true,
            _ => to.rank() > self.rank(),
        }
    }

    /// The name under which the status is stored.
    pub fn to_string(&self) -> (r: &'static str)
        ensures
            r@ == status_name(*self),
    {
        match self {
            JobStatus::Created => "CREATED",
            JobStatus::FetchedProof => "FETCHED_PROOF",
            JobStatus::PieGenerated => "PIE_GENERATED",
            JobStatus::OffchainProofRequested => "OFFCHAIN_PROOF_REQUESTED",
            JobStatus::OffchainProofRetrieved => "OFFCHAIN_PROOF_RETRIEVED",
            JobStatus::WrapProofRequested => "WRAP_PROOF_REQUESTED",
            JobStatus::WrappedProofDone => "WRAPPED_PROOF_DONE",
            JobStatus::OffchainComputationFinished => "OFFCHAIN_COMPUTATION_FINISHED",
            JobStatus::ReadyToBroadcastOnchain => "READY_TO_BROADCAST_ONCHAIN",
            JobStatus::ProofVerifyCalledOnchain => "PROOF_VERIFY_CALLED_ONCHAIN",
            JobStatus::VerifiedFactRegistered => "VERIFIED_FACT_REGISTERED",
            JobStatus::Done => "DONE",
            JobStatus::Error => "ERROR",
            JobStatus::Cancelled => "CANCELLED",
        }
    }

    /// The status stored under the name `t`, if any.
    pub fn from_str(t: &str) -> (r: Option<JobStatus>)
        ensures
            r == status_named(t@),
    {
        let all: [JobStatus; 14] = [
            JobStatus::Created,
            JobStatus::FetchedProof,
            JobStatus::PieGenerated,
            JobStatus::OffchainProofRequested,
            JobStatus::OffchainProofRetrieved,
            JobStatus::WrapProofRequested,
            JobStatus::WrappedProofDone,
            JobStatus::OffchainComputationFinished,
            JobStatus::ReadyToBroadcastOnchain,
            JobStatus::ProofVerifyCalledOnchain,
            JobStatus::VerifiedFactRegistered,
            JobStatus::Done,
            JobStatus::Error,
            JobStatus::Cancelled,
        ];
        proof {
            lemma_status_names_distinct();
        }
        assert(forall|s: JobStatus| #[trigger] all@[rank(s)] == s);
        let mut i: usize = 0;
        while i < 14
            invariant
                i <= 14,
                forall|s: JobStatus| #[trigger] all@[rank(s)] == s,
                forall|k: int| 0 <= k < i ==> status_name(all@[k]) != t@,
                forall|s1: JobStatus, s2: JobStatus|
                    status_name(s1) == status_name(s2) ==> s1 == s2,
            decreases 14 - i,
        {
            if same_text(all[i].to_string(), t) {
                return Some(all[i]);
            }
            i = i + 1;
        }
        assert forall|s: JobStatus| status_name(s) != t@ by {
            assert(all@[rank(s)] == s);
        }
        None
    }
}

proof fn lemma_status_names_distinct()
    ensures
        forall|s1: JobStatus, s2: JobStatus| status_name(s1) == status_name(s2) ==> s1 == s2,
{
    reveal_strlit("CREATED");
    reveal_strlit("FETCHED_PROOF");
    reveal_strlit("PIE_GENERATED");
    reveal_strlit("OFFCHAIN_PROOF_REQUESTED");
    reveal_strlit("OFFCHAIN_PROOF_RETRIEVED");
    reveal_strlit("WRAP_PROOF_REQUESTED");
    reveal_strlit("WRAPPED_PROOF_DONE");
    reveal_strlit("OFFCHAIN_COMPUTATION_FINISHED");
    reveal_strlit("READY_TO_BROADCAST_ONCHAIN");
    reveal_strlit("PROOF_VERIFY_CALLED_ONCHAIN");
    reveal_strlit("VERIFIED_FACT_REGISTERED");
    reveal_strlit("DONE");
    reveal_strlit("ERROR");
    reveal_strlit("CANCELLED");
    assert forall|s1: JobStatus, s2: JobStatus| status_name(s1) == status_name(s2) implies s1 == s2 by {
        if s1 != s2 {
            let a = status_name(s1);
            let b = status_name(s2);
            if a.len() == b.len() {
                if a.len() == 24 {
                    assert(a[0] != b[0] || a[17] != b[17]);
                } else {
                    assert(a[0] != b[0]);
                }
            }
        }
    }
}

} // verus!
