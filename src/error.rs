use vstd::prelude::*;

verus! {

/// The failures the relay distinguishes.
#[derive(Debug)]
pub enum Error {
    InvalidProof,
    BeaconRpcError,
    DeserializeError(String),
    IoError,
    SettlementProviderError(String),
    SettlementAccountError(String),
    BlockNotFound,
    FetchSyncCommitteeError,
    FailedFetchingBeaconState,
    InvalidBLSPoint,
    MissingRpcUrl,
    /// No header exists at the slot.
    EmptySlotDetected(u64),
    /// Settlement already holds a newer epoch than the job expects.
    RequiresNewerEpoch(u64),
    CairoRunError(String),
    ProverError,
    InvalidResponse(String),
    PollingTimeout(String),
    InvalidMerkleTree,
    DatabaseError(String),
}

impl Error {
    /// Errors that end the job at once, without a retry.
    pub open spec fn spec_is_structural(&self) -> bool {
        match self {
            Error::InvalidProof | Error::RequiresNewerEpoch(_) | Error::InvalidMerkleTree => true,
            _ => false,
        }
    }

    #[verifier::when_used_as_spec(spec_is_structural)]
    pub fn is_structural(&self) -> (r: bool)
        ensures
            r == self.spec_is_structural(),
    {
        match self {
            Error::InvalidProof | Error::RequiresNewerEpoch(_) | Error::InvalidMerkleTree => true,
            _ => false,
        }
    }
}

} // verus!
