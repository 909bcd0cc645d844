use vstd::prelude::*;

verus! {

/// Slots in one epoch.
pub const SLOTS_PER_EPOCH: u64 = 32;

/// Slots in one sync-committee period.
pub const SLOTS_PER_SYNC_COMMITTEE: u64 = 8192;

/// Epochs proved together in one catch-up batch.
pub const TARGET_BATCH_SIZE: u64 = 32;

/// Epochs in one sync-committee period.
pub const EPOCHS_PER_SYNC_COMMITTEE: u64 = 256;

/// Upper bound on epoch batch jobs that are not yet terminal.
pub const MAX_CONCURRENT_JOBS_IN_PROGRESS: u64 = 16;

/// Width of the pool that guards trace generation.
pub const MAX_CONCURRENT_PIE_GENERATIONS: usize = 1;

/// Width of the pool that guards beacon reads during input assembly.
pub const MAX_CONCURRENT_RPC_DATA_FETCH_JOBS: usize = 1;

/// Attempts of a job step before the job is marked as failed.
pub const MAX_JOB_RETRIES_COUNT: u64 = 10;

/// Delay before a failed job step is tried again, in milliseconds.
pub const RETRY_DELAY_MS: u64 = 300_000;

/// Times batch input assembly moves past an empty slot before giving up.
pub const MAX_SKIPPED_SLOTS_RETRY_ATTEMPTS: u64 = 5;

/// Times committee input assembly moves past an empty slot before giving up.
pub const MAX_COMMITTEE_SKIPPED_SLOTS: u64 = 3;

/// Interval between two polls of the prover, in seconds.
pub const PROVER_POLL_INTERVAL_SECS: u64 = 10;

} // verus!
