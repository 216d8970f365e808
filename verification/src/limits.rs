//! Workload limits shared by the benchmark configuration, reports and fixtures.

use vstd::prelude::*;

verus! {

/// Most distinct claims one aggregate may carry.
pub const MAX_DISTINCT_CLAIMS: usize = 16;

/// Most signers of a single same-claim aggregate.
pub const MAX_SAME_CLAIM_SIGNERS: usize = 512;

/// Signature count of the mixed-claim workloads.
pub const MIXED_CLAIM_SIGNATURES: usize = 512;

/// Claim counts of the configured mixed-claim workloads.
pub const MIXED_CLAIM_COUNTS: [usize; 2] = [8, 16];

/// Signers under each child proof of a recursive aggregation.
pub const RECURSIVE_CHILD_SIGNERS: usize = 512;

/// Most child proofs merged by one recursive aggregation.
pub const MAX_RECURSIVE_FAN_IN: usize = 16;

/// Signing slots of the key-creation workload (2^20).
pub const KEY_CREATION_SLOTS: usize = 1048576;

/// Workload name of recursive aggregation reports.
pub const RECURSIVE_AGGREGATION_WORKLOAD: &'static str = "recursive_same_claim_aggregate";

/// Lighthouse revision that the comparison is pinned to.
pub const LIGHTHOUSE_REVISION: &'static str = "e423a66763bb1bd780492d635123f208d80c3538";

} // verus!
