//! A tiered cache for compiled smart-contract modules.
//!
//! Contracts are uploaded as raw bytecode and identified by the content
//! checksum of their bytes.  Compiling bytecode into an engine artifact is
//! the dominant cost of running a contract, so compiled modules are kept in
//! three tiers: a caller-controlled pinned tier, a bounded least-recently-used
//! memory tier, and a durable content-addressed store of serialized
//! artifacts.  The [`cache::Cache`] coordinator resolves a checksum to a
//! ready instance through those tiers in order.

use vstd::prelude::*;

pub use analyzer::{analyze, AnalysisReport};
pub use cache::{Cache, CacheOptions, Stats};
pub use capabilities::{capabilities_from_csv, CapabilitySet};
pub use checksum::Checksum;
pub use crypto::sha1_calculate;
pub use errors::{ValidationError, VmError};
pub use instance::{Instance, InstanceOptions};
pub use modules::{CompiledModule, ENGINE_VERSION};

pub mod analyzer;
pub mod cache;
pub mod capabilities;
pub mod checksum;
pub mod crypto;
pub mod errors;
pub mod instance;
pub mod laws;
pub mod memory_cache;
pub mod modules;
pub mod pinned_cache;
pub mod proto_patch;
pub mod store;

verus! {

/// Compares two byte strings for equality.
pub fn bytes_eq(a: &[u8], b: &[u8]) -> (r: bool)
    ensures
        r == (a@ == b@),
{
    if a.len() != b.len() {
        return false;
    }
    let mut i: usize = 0;
    while i < a.len()
        invariant
            0 <= i <= a@.len(),
            a@.len() == b@.len(),
            forall|j: int| 0 <= j < i ==> a@[j] == b@[j],
        decreases a@.len() - i,
    {
        if a[i] != b[i] {
            return false;
        }
        i += 1;
    }
    proof {
        assert(a@ =~= b@);
    }
    true
}

} // verus!
