//! Laws of the cache, proved from the operation contracts.
//!
//! Each lemma here relates the outcomes of one or more coordinator
//! operations, as [`save_outcome`] and [`instantiate_outcome`] describe
//! them, and holds for every cache the operations can produce.

use vstd::prelude::*;

use crate::analyzer::{analyze_spec, ReportView};
use crate::cache::{instantiate_outcome, sat_inc, save_outcome, Cache, Stats};
use crate::checksum::Checksum;
use crate::crypto::sha1_of;
use crate::errors::VmError;
use crate::memory_cache::size_sum;
use crate::modules::{spec_compile, ENGINE_VERSION};
use crate::pinned_cache::seq_has_key;

verus! {

/// Saving the same bytecode twice gives the identical checksum both
/// times, and the second save changes nothing: the raw store still holds
/// exactly the one entry the first save made.
pub proof fn lemma_save_idempotent(
    s0: Cache,
    s1: Cache,
    r1: Result<Checksum, VmError>,
    s2: Cache,
    r2: Result<Checksum, VmError>,
    wasm: Seq<u8>,
)
    requires
        save_outcome(s0, s1, wasm, r1),
        r1 is Ok,
        save_outcome(s1, s2, wasm, r2),
    ensures
        r2 is Ok,
        r1->Ok_0@ == sha1_of(wasm),
        r2->Ok_0@ == sha1_of(wasm),
        s2.raw_map() == s1.raw_map(),
        s2.report_map() == s1.report_map(),
        s2.artifact_map() == s1.artifact_map(),
        s2.pinned_mods() == s1.pinned_mods(),
        s2.memory_mods() == s1.memory_mods(),
        s2.spec_stats() == s1.spec_stats(),
{
    let k = sha1_of(wasm);
    assert(s1.raw_map().contains_key(k));
}

/// On a freshly constructed coordinator, the first instantiation of a
/// just-saved module is one miss with every hit counter still zero, and
/// the instantiation right after it is one memory-tier hit with the miss
/// count unchanged — provided the module fits the memory tier.
pub proof fn lemma_cold_cache_waterfall(
    s0: Cache,
    s1: Cache,
    r1: Result<Checksum, VmError>,
    s2: Cache,
    s3: Cache,
    wasm: Seq<u8>,
)
    requires
        s0.spec_stats() == (Stats {
            hits_pinned_memory_cache: 0,
            hits_memory_cache: 0,
            hits_fs_cache: 0,
            misses: 0,
        }),
        s0.raw_map() == Map::<Seq<u8>, Seq<u8>>::empty(),
        s0.artifact_map() == Map::<Seq<u8>, Seq<u8>>::empty(),
        s0.pinned_mods() == Seq::<crate::modules::ModuleView>::empty(),
        s0.memory_mods() == Seq::<crate::modules::ModuleView>::empty(),
        save_outcome(s0, s1, wasm, r1),
        r1 is Ok,
        instantiate_outcome(s1, s2, sha1_of(wasm)),
        instantiate_outcome(s2, s3, sha1_of(wasm)),
        wasm.len() <= s0.spec_memory_capacity(),
        s0.spec_memory_capacity() > 0,
        wasm.len() <= usize::MAX,
    ensures
        s2.spec_stats() == (Stats {
            hits_pinned_memory_cache: 0,
            hits_memory_cache: 0,
            hits_fs_cache: 0,
            misses: 1,
        }),
        s3.spec_stats() == (Stats {
            hits_pinned_memory_cache: 0,
            hits_memory_cache: 1,
            hits_fs_cache: 0,
            misses: 1,
        }),
{
    let k = sha1_of(wasm);
    let m = spec_compile(wasm, ENGINE_VERSION);
    assert(!s0.raw_map().contains_key(k));
    assert(s1.raw_map() == s0.raw_map().insert(k, wasm));
    assert(s1.raw_map().contains_key(k));
    assert(s1.raw_map()[k] == wasm);
    assert(!s1.pinned_has(k));
    assert(!s1.memory_has(k));
    assert(!s1.artifact_hit(k));
    assert(s2.spec_stats().misses == sat_inc(0));
    let pre_mem = s1.memory_mods();
    let n = choose|n: int|
        0 <= n <= pre_mem.len() && s2.memory_mods() == pre_mem.skip(n).push(m) && size_sum(
            pre_mem.skip(n),
        ) + m.code_size <= s1.spec_memory_capacity() && (n == 0 || size_sum(
            pre_mem.skip(n - 1),
        ) + m.code_size > s1.spec_memory_capacity());
    assert(n == 0);
    assert(pre_mem.skip(0) =~= pre_mem);
    assert(s2.memory_mods() == pre_mem.push(m));
    assert(s2.memory_mods()[0] == m);
    assert(m.checksum == k);
    assert(s2.memory_has(k));
    assert(!s2.pinned_has(k));
}

/// While a checksum is pinned, instantiating it is answered by the pinned
/// tier alone: the filesystem-hit and miss counters never move, no other
/// counter moves either, and the checksum stays pinned — so this holds of
/// every following call too, until an unpin.
pub proof fn lemma_pin_bypasses_lower_tiers(pre: Cache, post: Cache, k: Seq<u8>)
    requires
        pre.pinned_has(k),
        instantiate_outcome(pre, post, k),
    ensures
        post.spec_stats().hits_fs_cache == pre.spec_stats().hits_fs_cache,
        post.spec_stats().misses == pre.spec_stats().misses,
        post.spec_stats().hits_memory_cache == pre.spec_stats().hits_memory_cache,
        post.spec_stats().hits_pinned_memory_cache == sat_inc(
            pre.spec_stats().hits_pinned_memory_cache,
        ),
        post.pinned_has(k),
{
    assert(seq_has_key(post.pinned_mods(), k) == seq_has_key(pre.pinned_mods(), k));
}

/// Saving bytecode that requires capabilities the host lacks fails with
/// an error carrying exactly the missing capabilities — every one of
/// them, and at least one — and persists nothing: no address becomes
/// loadable.
pub proof fn lemma_capability_gate(
    pre: Cache,
    post: Cache,
    wasm: Seq<u8>,
    r: Result<Checksum, VmError>,
    rep: ReportView,
)
    requires
        save_outcome(pre, post, wasm, r),
        !pre.raw_map().contains_key(sha1_of(wasm)),
        analyze_spec(wasm) == Ok::<ReportView, crate::errors::ValidationError>(rep),
        !rep.required_capabilities.subset_of(pre.spec_caps()),
    ensures
        (r matches Err(e) && e matches VmError::MissingCapabilities(missing)
            && missing@ == rep.required_capabilities.difference(pre.spec_caps())),
        exists|w: Seq<u8>|
            rep.required_capabilities.contains(w) && !pre.spec_caps().contains(w)
                && #[trigger] rep.required_capabilities.difference(pre.spec_caps()).contains(w),
        post.raw_map() == pre.raw_map(),
        post.report_map() == pre.report_map(),
{
    let w = choose|w: Seq<u8>|
        rep.required_capabilities.contains(w) && !pre.spec_caps().contains(w);
    assert(rep.required_capabilities.difference(pre.spec_caps()).contains(w));
}

/// The four counters are independently monotonic: no instantiation moves
/// any of them backwards.  Saves, pins and unpins leave them untouched
/// altogether, as their outcomes state.
pub proof fn lemma_counters_monotonic(pre: Cache, post: Cache, k: Seq<u8>)
    requires
        instantiate_outcome(pre, post, k),
    ensures
        post.spec_stats().hits_pinned_memory_cache
            >= pre.spec_stats().hits_pinned_memory_cache,
        post.spec_stats().hits_memory_cache >= pre.spec_stats().hits_memory_cache,
        post.spec_stats().hits_fs_cache >= pre.spec_stats().hits_fs_cache,
        post.spec_stats().misses >= pre.spec_stats().misses,
{
}

/// The combined counter total of a Stats snapshot.
pub open spec fn stats_total(s: Stats) -> int {
    s.hits_pinned_memory_cache + s.hits_memory_cache + s.hits_fs_cache + s.misses
}

/// Every instantiation accounts for itself exactly once: below counter
/// saturation, one call moves exactly one counter up by exactly one.
/// A sequence of N calls therefore ends with the counters summing to N
/// more than they started, with no call counted twice or dropped.
pub proof fn lemma_one_counter_per_call(pre: Cache, post: Cache, k: Seq<u8>)
    requires
        instantiate_outcome(pre, post, k),
        pre.spec_stats().hits_pinned_memory_cache < u64::MAX,
        pre.spec_stats().hits_memory_cache < u64::MAX,
        pre.spec_stats().hits_fs_cache < u64::MAX,
        pre.spec_stats().misses < u64::MAX,
    ensures
        stats_total(post.spec_stats()) == stats_total(pre.spec_stats()) + 1,
        post.spec_stats().hits_pinned_memory_cache
            >= pre.spec_stats().hits_pinned_memory_cache,
        post.spec_stats().hits_memory_cache >= pre.spec_stats().hits_memory_cache,
        post.spec_stats().hits_fs_cache >= pre.spec_stats().hits_fs_cache,
        post.spec_stats().misses >= pre.spec_stats().misses,
{
}

} // verus!
