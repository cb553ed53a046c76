//! The cache coordinator.
//!
//! A [`Cache`] owns every tier: the pinned tier, the bounded memory tier,
//! and the state of the durable tier — raw bytecode, analysis reports and
//! serialized compiled artifacts.  `save_wasm` admits bytecode once,
//! validating it and gating it on the host's capabilities; `get_instance`
//! resolves a checksum to a running instance through the waterfall
//! pinned tier, memory tier, compiled artifact, recompilation — first hit
//! wins, and each stage hit bumps its own counter.

use vstd::prelude::*;

use crate::analyzer;
use crate::analyzer::{analyze_spec, AnalysisReport, ReportView};
use crate::capabilities::CapabilitySet;
use crate::checksum::Checksum;
use crate::crypto::sha1_of;
use crate::errors::{ValidationError, VmError};
use crate::instance::{Instance, InstanceOptions};
use crate::memory_cache::{memory_insert_outcome, InMemoryCache};
use crate::memory_cache::lemma_insert_membership;
use crate::modules;
use crate::modules::{
    deserialize_spec, serialize_spec, spec_compile, CompiledModule, ModuleView, ENGINE_VERSION,
};
use crate::pinned_cache::{lemma_push_has_key, seq_has_key, PinnedMemoryCache};
use crate::store::Store;

verus! {

/// The four waterfall counters.  Each is monotonically non-decreasing and
/// saturates instead of wrapping.
#[derive(Clone, Copy, Debug, PartialEq, Eq, Structural)]
pub struct Stats {
    /// Lookups answered by the pinned tier.
    pub hits_pinned_memory_cache: u64,
    /// Lookups answered by the memory tier.
    pub hits_memory_cache: u64,
    /// Lookups answered by a stored compiled artifact.
    pub hits_fs_cache: u64,
    /// Lookups that had to recompile from raw bytecode.
    pub misses: u64,
}

/// A counter bump that saturates at the top instead of wrapping.
pub open spec fn sat_inc(x: u64) -> u64 {
    if x < u64::MAX {
        (x + 1) as u64
    } else {
        x
    }
}

fn sat_add_one(x: u64) -> (r: u64)
    ensures
        r == sat_inc(x),
{
    if x < u64::MAX {
        x + 1
    } else {
        x
    }
}

/// What a cache is constructed from.
pub struct CacheOptions {
    /// The capabilities this host supports.
    pub available_capabilities: CapabilitySet,
    /// The byte capacity of the memory tier; zero disables it.
    pub memory_cache_size: usize,
    /// The upper bound on one instance's linear memory, in bytes.
    pub instance_memory_limit: usize,
}

/// The tiered compiled-module cache and instantiation coordinator.
pub struct Cache {
    capabilities: CapabilitySet,
    instance_memory_limit: usize,
    pinned: PinnedMemoryCache,
    memory: InMemoryCache,
    raw: Store<Vec<u8>>,
    artifacts: Store<Vec<u8>>,
    reports: Store<AnalysisReport>,
    stats: Stats,
}

impl Cache {
    /// The capabilities the host supports.
    pub closed spec fn spec_caps(&self) -> Set<Seq<u8>> {
        self.capabilities@
    }

    /// The raw bytecode on record, keyed by checksum.
    pub closed spec fn raw_map(&self) -> Map<Seq<u8>, Seq<u8>> {
        self.raw@
    }

    /// The serialized compiled artifacts on record, keyed by checksum.
    pub closed spec fn artifact_map(&self) -> Map<Seq<u8>, Seq<u8>> {
        self.artifacts@
    }

    /// The analysis reports on record, keyed by checksum.
    pub closed spec fn report_map(&self) -> Map<Seq<u8>, ReportView> {
        self.reports@
    }

    /// The pinned modules, in pin order.
    pub closed spec fn pinned_mods(&self) -> Seq<ModuleView> {
        self.pinned.modules()
    }

    /// The memory-resident modules, least recently used first.
    pub closed spec fn memory_mods(&self) -> Seq<ModuleView> {
        self.memory.modules()
    }

    /// The waterfall counters.
    pub closed spec fn spec_stats(&self) -> Stats {
        self.stats
    }

    /// The capacity of the memory tier.
    pub closed spec fn spec_memory_capacity(&self) -> usize {
        self.memory.spec_capacity()
    }

    /// The memory bound handed to each instance.
    pub closed spec fn spec_instance_memory_limit(&self) -> usize {
        self.instance_memory_limit
    }

    /// Whether a module for `k` is pinned.
    pub open spec fn pinned_has(&self, k: Seq<u8>) -> bool {
        seq_has_key(self.pinned_mods(), k)
    }

    /// Whether a module for `k` is memory-resident.
    pub open spec fn memory_has(&self, k: Seq<u8>) -> bool {
        seq_has_key(self.memory_mods(), k)
    }

    /// Whether a stored artifact for `k` would deserialize under the
    /// running engine version — the condition for a filesystem-tier hit.
    pub open spec fn artifact_hit(&self, k: Seq<u8>) -> bool {
        self.artifact_map().contains_key(k) && deserialize_spec(
            self.artifact_map()[k],
            ENGINE_VERSION,
        ) is Some
    }

    /// A module some tier serves for its checksum is the module of the
    /// bytecode on record under that checksum.
    spec fn module_honest(&self, m: ModuleView) -> bool {
        self.raw_map().contains_key(m.checksum) && m == spec_compile(
            self.raw_map()[m.checksum],
            ENGINE_VERSION,
        )
    }

    /// The coordinator's invariant.  Raw bytecode sits under its own
    /// digest; reports exist exactly for saved bytecode and are its
    /// analysis; artifacts belong to saved bytecode and, where they
    /// deserialize, agree with it; tier modules are honest; and a checksum
    /// is accounted in at most one of the pinned and memory tiers.
    pub closed spec fn wf(&self) -> bool {
        &&& self.capabilities.wf()
        &&& self.raw.wf()
        &&& self.artifacts.wf()
        &&& self.reports.wf()
        &&& self.memory.wf()
        &&& self.pinned.wf()
        &&& forall|k: Seq<u8>|
            #[trigger] self.raw_map().contains_key(k) ==> k.len() == 20 && k == sha1_of(
                self.raw_map()[k],
            ) && self.raw_map()[k].len() <= usize::MAX
        &&& forall|k: Seq<u8>|
            #[trigger] self.report_map().contains_key(k) <==> self.raw_map().contains_key(k)
        &&& forall|k: Seq<u8>|
            #[trigger] self.report_map().contains_key(k) ==> analyze_spec(self.raw_map()[k])
                == Ok::<ReportView, ValidationError>(self.report_map()[k])
        &&& forall|k: Seq<u8>|
            #[trigger] self.artifact_map().contains_key(k) ==> self.raw_map().contains_key(k)
        &&& forall|k: Seq<u8>|
            self.artifact_map().contains_key(k) ==> ((#[trigger] deserialize_spec(
                self.artifact_map()[k],
                ENGINE_VERSION,
            )) matches Some(m) ==> m == spec_compile(self.raw_map()[k], ENGINE_VERSION))
        &&& forall|i: int|
            0 <= i < self.pinned_mods().len() ==> self.module_honest(
                #[trigger] self.pinned_mods()[i],
            )
        &&& forall|i: int|
            0 <= i < self.memory_mods().len() ==> self.module_honest(
                #[trigger] self.memory_mods()[i],
            )
        &&& forall|k: Seq<u8>|
            !(#[trigger] seq_has_key(self.pinned_mods(), k) && seq_has_key(
                self.memory_mods(),
                k,
            ))
    }

    /// The invariant carries over to a state with the same observable
    /// content, tier by tier.
    proof fn lemma_wf_transfer(pre: &Cache, post: &Cache)
        requires
            pre.wf(),
            post.capabilities == pre.capabilities,
            post.raw == pre.raw,
            post.artifacts == pre.artifacts,
            post.reports == pre.reports,
            post.memory.wf(),
            post.pinned.wf(),
            post.memory_mods() == pre.memory_mods(),
            post.pinned_mods() == pre.pinned_mods(),
        ensures
            post.wf(),
    {
        assert forall|k: Seq<u8>|
            #[trigger] post.raw_map().contains_key(k) implies k.len() == 20 && k == sha1_of(
            post.raw_map()[k],
        ) && post.raw_map()[k].len() <= usize::MAX by {
            assert(pre.raw_map().contains_key(k));
        }
        assert forall|k: Seq<u8>|
            #[trigger] post.report_map().contains_key(k) <==> post.raw_map().contains_key(
            k,
        ) by {
            assert(pre.report_map().contains_key(k) <==> pre.raw_map().contains_key(k));
        }
        assert forall|k: Seq<u8>|
            #[trigger] post.report_map().contains_key(k) implies analyze_spec(
            post.raw_map()[k],
        ) == Ok::<ReportView, ValidationError>(post.report_map()[k]) by {
            assert(pre.report_map().contains_key(k));
        }
        assert forall|k: Seq<u8>|
            #[trigger] post.artifact_map().contains_key(k) implies post.raw_map().contains_key(
            k,
        ) by {
            assert(pre.artifact_map().contains_key(k));
        }
        assert forall|k: Seq<u8>|
            post.artifact_map().contains_key(k) implies ((#[trigger] deserialize_spec(
            post.artifact_map()[k],
            ENGINE_VERSION,
        )) matches Some(m) ==> m == spec_compile(post.raw_map()[k], ENGINE_VERSION)) by {
            assert(pre.artifact_map().contains_key(k));
            assert((deserialize_spec(pre.artifact_map()[k], ENGINE_VERSION)) matches Some(m)
                ==> m == spec_compile(pre.raw_map()[k], ENGINE_VERSION));
        }
        assert forall|i: int|
            0 <= i < post.pinned_mods().len() implies post.module_honest(
            #[trigger] post.pinned_mods()[i],
        ) by {
            assert(pre.module_honest(pre.pinned_mods()[i]));
        }
        assert forall|i: int|
            0 <= i < post.memory_mods().len() implies post.module_honest(
            #[trigger] post.memory_mods()[i],
        ) by {
            assert(pre.module_honest(pre.memory_mods()[i]));
        }
        assert forall|k: Seq<u8>|
            !(#[trigger] seq_has_key(post.pinned_mods(), k) && seq_has_key(
                post.memory_mods(),
                k,
            )) by {
            assert(seq_has_key(post.pinned_mods(), k) == seq_has_key(pre.pinned_mods(), k));
            assert(seq_has_key(post.memory_mods(), k) == seq_has_key(pre.memory_mods(), k));
        }
    }

    /// A freshly constructed coordinator: every tier empty, every counter
    /// zero.
    pub fn new(options: CacheOptions) -> (r: Cache)
        requires
            options.available_capabilities.wf(),
        ensures
            r.wf(),
            r.spec_caps() == options.available_capabilities@,
            r.spec_memory_capacity() == options.memory_cache_size,
            r.spec_instance_memory_limit() == options.instance_memory_limit,
            r.raw_map() == Map::<Seq<u8>, Seq<u8>>::empty(),
            r.artifact_map() == Map::<Seq<u8>, Seq<u8>>::empty(),
            r.report_map() == Map::<Seq<u8>, ReportView>::empty(),
            r.pinned_mods() == Seq::<ModuleView>::empty(),
            r.memory_mods() == Seq::<ModuleView>::empty(),
            r.spec_stats() == (Stats {
                hits_pinned_memory_cache: 0,
                hits_memory_cache: 0,
                hits_fs_cache: 0,
                misses: 0,
            }),
    {
        Cache {
            capabilities: options.available_capabilities,
            instance_memory_limit: options.instance_memory_limit,
            pinned: PinnedMemoryCache::new(),
            memory: InMemoryCache::new(options.memory_cache_size),
            raw: Store::new(),
            artifacts: Store::new(),
            reports: Store::new(),
            stats: Stats {
                hits_pinned_memory_cache: 0,
                hits_memory_cache: 0,
                hits_fs_cache: 0,
                misses: 0,
            },
        }
    }

    /// A consistent snapshot of the four counters.
    pub fn stats(&self) -> (r: Stats)
        ensures
            r == self.spec_stats(),
    {
        self.stats
    }
}

/// What a save does: bytecode already on record is answered by its
/// checksum with nothing changed; new bytecode is analyzed, gated on the
/// host's capabilities, and persisted together with its report, or
/// rejected with nothing persisted.  No tier, counter or configuration is
/// touched.
pub open spec fn save_outcome(
    pre: Cache,
    post: Cache,
    wasm: Seq<u8>,
    r: Result<Checksum, VmError>,
) -> bool {
    let k = sha1_of(wasm);
    &&& post.spec_caps() == pre.spec_caps()
    &&& post.spec_memory_capacity() == pre.spec_memory_capacity()
    &&& post.spec_instance_memory_limit() == pre.spec_instance_memory_limit()
    &&& post.spec_stats() == pre.spec_stats()
    &&& post.pinned_mods() == pre.pinned_mods()
    &&& post.memory_mods() == pre.memory_mods()
    &&& post.artifact_map() == pre.artifact_map()
    &&& if pre.raw_map().contains_key(k) {
        &&& (r matches Ok(ck) && ck@ == k)
        &&& post.raw_map() == pre.raw_map()
        &&& post.report_map() == pre.report_map()
    } else {
        match analyze_spec(wasm) {
            Err(e) => {
                &&& (r matches Err(err) && err matches VmError::Validation(e2) && e2 == e)
                &&& post.raw_map() == pre.raw_map()
                &&& post.report_map() == pre.report_map()
            },
            Ok(rep) => {
                if rep.required_capabilities.subset_of(pre.spec_caps()) {
                    &&& (r matches Ok(ck) && ck@ == k)
                    &&& post.raw_map() == pre.raw_map().insert(k, wasm)
                    &&& post.report_map() == pre.report_map().insert(k, rep)
                } else {
                    &&& (r matches Err(err) && err matches VmError::MissingCapabilities(m)
                        && m@ == rep.required_capabilities.difference(pre.spec_caps()) && m.wf())
                    &&& post.raw_map() == pre.raw_map()
                    &&& post.report_map() == pre.report_map()
                }
            },
        }
    }
}

impl Cache {
    /// Admits `wasm` into the cache: computes its checksum, and — unless
    /// the checksum is already on record, which is answered idempotently —
    /// validates the bytecode, checks that its required capabilities are a
    /// subset of the host's, and records the bytecode and its report.  On
    /// any error nothing is persisted.
    pub fn save_wasm(&mut self, wasm: &[u8]) -> (r: Result<Checksum, VmError>)
        requires
            old(self).wf(),
        ensures
            final(self).wf(),
            save_outcome(*old(self), *final(self), wasm@, r),
    {
        let checksum = Checksum::generate(wasm);
        if self.raw.has(&checksum) {
            return Ok(checksum);
        }
        let report = match analyzer::analyze(wasm) {
            Ok(rep) => rep,
            Err(e) => {
                return Err(VmError::Validation(e));
            },
        };
        let missing = report.required_capabilities.difference(&self.capabilities);
        if !missing.is_empty() {
            proof {
                let req = report.required_capabilities@;
                let have = self.capabilities@;
                let d = req.difference(have);
                assert(!req.subset_of(have)) by {
                    if !(exists|w: Seq<u8>| d.contains(w)) {
                        assert(d =~= Set::<Seq<u8>>::empty());
                    }
                    let w = choose|w: Seq<u8>| d.contains(w);
                    assert(req.contains(w) && !have.contains(w));
                }
            }
            return Err(VmError::MissingCapabilities(missing));
        }
        proof {
            let req = report.required_capabilities@;
            let have = self.capabilities@;
            assert forall|w: Seq<u8>| req.contains(w) implies have.contains(w) by {
                if !have.contains(w) {
                    assert(req.difference(have).contains(w));
                }
            }
        }
        proof {
            assert(!old(self).report_map().contains_key(checksum@));
        }
        let code = vstd::slice::slice_to_vec(wasm);
        let code_len = code.len();
        self.raw.insert(checksum, code);
        self.reports.insert(checksum, report);
        proof {
            let k = checksum@;
            let pre = *old(self);
            assert(code_len == wasm@.len());
            assert forall|i: int|
                0 <= i < self.pinned_mods().len() implies self.module_honest(
                #[trigger] self.pinned_mods()[i],
            ) by {
                let m = pre.pinned_mods()[i];
                assert(pre.module_honest(m));
                assert(m.checksum != k);
            }
            assert forall|i: int|
                0 <= i < self.memory_mods().len() implies self.module_honest(
                #[trigger] self.memory_mods()[i],
            ) by {
                let m = pre.memory_mods()[i];
                assert(pre.module_honest(m));
                assert(m.checksum != k);
            }
            assert forall|k2: Seq<u8>|
                !(#[trigger] seq_has_key(self.pinned_mods(), k2) && seq_has_key(
                    self.memory_mods(),
                    k2,
                )) by {
                assert(seq_has_key(self.pinned_mods(), k2) == seq_has_key(
                    pre.pinned_mods(),
                    k2,
                ));
                assert(seq_has_key(self.memory_mods(), k2) == seq_has_key(
                    pre.memory_mods(),
                    k2,
                ));
            }
        }
        Ok(checksum)
    }

    /// The raw bytecode on record under `checksum`.
    pub fn load_wasm(&self, checksum: &Checksum) -> (r: Result<Vec<u8>, VmError>)
        requires
            self.wf(),
        ensures
            r is Ok <==> self.raw_map().contains_key(checksum@),
            r matches Ok(code) ==> code@ == self.raw_map()[checksum@],
            r matches Err(e) ==> (e matches VmError::NotFound(ck) && ck@ == checksum@),
    {
        match self.raw.read(checksum) {
            Some(code) => Ok(vstd::slice::slice_to_vec(code.as_slice())),
            None => Err(VmError::NotFound(*checksum)),
        }
    }

    /// The analysis report recorded for `checksum` at save time; answered
    /// from the record, without touching the bytecode or the compiler.
    pub fn analyze(&self, checksum: &Checksum) -> (r: Result<&AnalysisReport, VmError>)
        requires
            self.wf(),
        ensures
            r is Ok <==> self.raw_map().contains_key(checksum@),
            r matches Ok(rep) ==> rep@ == self.report_map()[checksum@] && analyze_spec(
                self.raw_map()[checksum@],
            ) == Ok::<ReportView, ValidationError>(rep@),
            r matches Err(e) ==> (e matches VmError::NotFound(ck) && ck@ == checksum@),
    {
        proof {
            assert(self.report_map().contains_key(checksum@) <==> self.raw_map().contains_key(
                checksum@,
            ));
        }
        match self.reports.read(checksum) {
            Some(rep) => Ok(rep),
            None => Err(VmError::NotFound(*checksum)),
        }
    }

    /// Reads the stored artifact for `checksum` back into a module.  A
    /// missing, corrupt or version-mismatched artifact is `None` — a tier
    /// miss, never an error.
    fn read_compiled(&self, checksum: &Checksum) -> (r: Option<CompiledModule>)
        requires
            self.wf(),
        ensures
            r is Some <==> self.artifact_hit(checksum@),
            r matches Some(m) ==> self.raw_map().contains_key(checksum@) && m@ == spec_compile(
                self.raw_map()[checksum@],
                ENGINE_VERSION,
            ),
    {
        match self.artifacts.read(checksum) {
            Some(bytes) => {
                match CompiledModule::deserialize(bytes.as_slice(), ENGINE_VERSION) {
                    Some(m) => Some(m),
                    None => None,
                }
            },
            None => None,
        }
    }
}

/// What pinning does: an already pinned checksum is a no-op; otherwise the
/// module is resolved — out of the memory tier if resident there, else
/// from its stored artifact, else by compiling the raw bytecode, which
/// also records a fresh artifact — and pinned.  A checksum with no raw
/// bytecode on record is refused.  Counters never move.
pub open spec fn pin_outcome(pre: Cache, post: Cache, k: Seq<u8>, r: Result<(), VmError>) -> bool {
    &&& post.spec_caps() == pre.spec_caps()
    &&& post.spec_memory_capacity() == pre.spec_memory_capacity()
    &&& post.spec_instance_memory_limit() == pre.spec_instance_memory_limit()
    &&& post.spec_stats() == pre.spec_stats()
    &&& post.raw_map() == pre.raw_map()
    &&& post.report_map() == pre.report_map()
    &&& if pre.pinned_has(k) {
        &&& r is Ok
        &&& post.pinned_mods() == pre.pinned_mods()
        &&& post.memory_mods() == pre.memory_mods()
        &&& post.artifact_map() == pre.artifact_map()
    } else if pre.raw_map().contains_key(k) {
        &&& r is Ok
        &&& post.pinned_mods() == pre.pinned_mods().push(
            spec_compile(pre.raw_map()[k], ENGINE_VERSION),
        )
        &&& !seq_has_key(post.memory_mods(), k)
        &&& forall|k2: Seq<u8>|
            k2 != k ==> #[trigger] seq_has_key(post.memory_mods(), k2) == seq_has_key(
                pre.memory_mods(),
                k2,
            )
        &&& ((pre.memory_has(k) || pre.artifact_hit(k)) ==> post.artifact_map()
            == pre.artifact_map())
        &&& ((!pre.memory_has(k) && !pre.artifact_hit(k)) ==> post.artifact_map()
            == pre.artifact_map().insert(k, serialize_spec(spec_compile(pre.raw_map()[k],
            ENGINE_VERSION))))
    } else {
        &&& (r matches Err(e) && e matches VmError::NotFound(ck) && ck@ == k)
        &&& post.pinned_mods() == pre.pinned_mods()
        &&& post.memory_mods() == pre.memory_mods()
        &&& post.artifact_map() == pre.artifact_map()
    }
}

impl Cache {
    /// Ensures a module for `checksum` is resident in the unevictable
    /// pinned tier, compiling from raw bytecode if no tier has it.
    /// Idempotent: pinning an already pinned checksum changes nothing.
    pub fn pin(&mut self, checksum: &Checksum) -> (r: Result<(), VmError>)
        requires
            old(self).wf(),
        ensures
            final(self).wf(),
            pin_outcome(*old(self), *final(self), checksum@, r),
    {
        let ghost pre = *old(self);
        if self.pinned.has(checksum) {
            return Ok(());
        }
        let module = match self.memory.take(checksum) {
            Some(m) => {
                proof {
                    let i = choose|i: int|
                        0 <= i < pre.memory_mods().len() && pre.memory_mods()[i] == m@;
                    assert(pre.module_honest(m@));
                }
                m
            },
            None => {
                proof {
                    Cache::lemma_wf_transfer(&pre, self);
                }
                match self.read_compiled(checksum) {
                    Some(m) => m,
                    None => {
                        let m = match self.raw.read(checksum) {
                            Some(code) => modules::compile(code.as_slice(), ENGINE_VERSION),
                            None => {
                                return Err(VmError::NotFound(*checksum));
                            },
                        };
                        proof {
                            assert(m@.checksum == checksum@);
                        }
                        let bytes = m.serialize();
                        self.artifacts.put(*checksum, bytes);
                        proof {
                            modules::lemma_serialize_round_trip(m@);
                        }
                        m
                    },
                }
            },
        };
        self.pinned.add(module);
        proof {
            lemma_push_has_key(pre.pinned_mods(), module@);
            assert forall|mm: ModuleView|
                #[trigger] self.pinned_mods().contains(mm) implies
                pre.pinned_mods().contains(mm) || pre.module_honest(mm) by {
                let j = choose|j: int|
                    0 <= j < self.pinned_mods().len() && self.pinned_mods()[j] == mm;
                if j < pre.pinned_mods().len() {
                    assert(pre.pinned_mods()[j] == mm);
                }
            }
            assert forall|mm: ModuleView|
                #[trigger] self.memory_mods().contains(mm) implies
                pre.memory_mods().contains(mm) || pre.module_honest(mm) by {}
            assert forall|k2: Seq<u8>|
                !(#[trigger] seq_has_key(self.pinned_mods(), k2) && seq_has_key(
                    self.memory_mods(),
                    k2,
                )) by {
                if k2 == checksum@ {
                } else {
                    assert(seq_has_key(self.pinned_mods(), k2) == seq_has_key(
                        pre.pinned_mods(),
                        k2,
                    ));
                    assert(seq_has_key(self.memory_mods(), k2) == seq_has_key(
                        pre.memory_mods(),
                        k2,
                    ));
                }
            }
            Cache::lemma_wf_rebuild(&pre, self);
        }
        Ok(())
    }

    /// Rebuilds the invariant after an operation that may have moved
    /// modules between tiers, added one honest module, and recorded at
    /// most one fresh artifact.
    proof fn lemma_wf_rebuild(pre: &Cache, post: &Cache)
        requires
            pre.wf(),
            post.capabilities == pre.capabilities,
            post.raw == pre.raw,
            post.reports == pre.reports,
            post.memory.wf(),
            post.pinned.wf(),
            post.artifacts.wf(),
            post.artifact_map() == pre.artifact_map() || exists|ak: Seq<u8>|
                #[trigger] pre.raw_map().contains_key(ak) && post.artifact_map()
                    == pre.artifact_map().insert(ak, serialize_spec(spec_compile(
                    pre.raw_map()[ak],
                    ENGINE_VERSION,
                ))),
            forall|mm: ModuleView|
                #[trigger] post.pinned_mods().contains(mm) ==> pre.pinned_mods().contains(mm)
                    || pre.module_honest(mm),
            forall|mm: ModuleView|
                #[trigger] post.memory_mods().contains(mm) ==> pre.memory_mods().contains(mm)
                    || pre.module_honest(mm),
            forall|k: Seq<u8>|
                !(#[trigger] seq_has_key(post.pinned_mods(), k) && seq_has_key(
                    post.memory_mods(),
                    k,
                )),
        ensures
            post.wf(),
    {
        assert forall|k: Seq<u8>|
            #[trigger] post.raw_map().contains_key(k) implies k.len() == 20 && k == sha1_of(
            post.raw_map()[k],
        ) && post.raw_map()[k].len() <= usize::MAX by {
            assert(pre.raw_map().contains_key(k));
        }
        assert forall|k: Seq<u8>|
            #[trigger] post.report_map().contains_key(k) <==> post.raw_map().contains_key(
            k,
        ) by {
            assert(pre.report_map().contains_key(k) <==> pre.raw_map().contains_key(k));
        }
        assert forall|k: Seq<u8>|
            #[trigger] post.report_map().contains_key(k) implies analyze_spec(
            post.raw_map()[k],
        ) == Ok::<ReportView, ValidationError>(post.report_map()[k]) by {
            assert(pre.report_map().contains_key(k));
        }
        if post.artifact_map() == pre.artifact_map() {
            assert forall|k: Seq<u8>|
                #[trigger] post.artifact_map().contains_key(k) implies
                post.raw_map().contains_key(k) by {
                assert(pre.artifact_map().contains_key(k));
            }
            assert forall|k: Seq<u8>|
                post.artifact_map().contains_key(k) implies ((#[trigger] deserialize_spec(
                post.artifact_map()[k],
                ENGINE_VERSION,
            )) matches Some(m) ==> m == spec_compile(post.raw_map()[k], ENGINE_VERSION)) by {
                assert(pre.artifact_map().contains_key(k));
                assert((deserialize_spec(pre.artifact_map()[k], ENGINE_VERSION)) matches Some(
                    m,
                ) ==> m == spec_compile(pre.raw_map()[k], ENGINE_VERSION));
            }
        } else {
            let ak = choose|ak: Seq<u8>|
                #[trigger] pre.raw_map().contains_key(ak) && post.artifact_map()
                    == pre.artifact_map().insert(ak, serialize_spec(spec_compile(
                    pre.raw_map()[ak],
                    ENGINE_VERSION,
                )));
            let fresh = spec_compile(pre.raw_map()[ak], ENGINE_VERSION);
            assert(fresh.checksum == ak);
            modules::lemma_serialize_round_trip(fresh);
            assert forall|k: Seq<u8>|
                #[trigger] post.artifact_map().contains_key(k) implies
                post.raw_map().contains_key(k) by {
                if k != ak {
                    assert(pre.artifact_map().contains_key(k));
                }
            }
            assert forall|k: Seq<u8>|
                post.artifact_map().contains_key(k) implies ((#[trigger] deserialize_spec(
                post.artifact_map()[k],
                ENGINE_VERSION,
            )) matches Some(m) ==> m == spec_compile(post.raw_map()[k], ENGINE_VERSION)) by {
                if k != ak {
                    assert(pre.artifact_map().contains_key(k));
                    assert((deserialize_spec(pre.artifact_map()[k], ENGINE_VERSION))
                        matches Some(m) ==> m == spec_compile(pre.raw_map()[k],
                        ENGINE_VERSION));
                }
            }
        }
        assert forall|i: int|
            0 <= i < post.pinned_mods().len() implies post.module_honest(
            #[trigger] post.pinned_mods()[i],
        ) by {
            let mm = post.pinned_mods()[i];
            assert(post.pinned_mods().contains(mm));
            if pre.pinned_mods().contains(mm) {
                let j = choose|j: int|
                    0 <= j < pre.pinned_mods().len() && pre.pinned_mods()[j] == mm;
                assert(pre.module_honest(pre.pinned_mods()[j]));
            }
        }
        assert forall|i: int|
            0 <= i < post.memory_mods().len() implies post.module_honest(
            #[trigger] post.memory_mods()[i],
        ) by {
            let mm = post.memory_mods()[i];
            assert(post.memory_mods().contains(mm));
            if pre.memory_mods().contains(mm) {
                let j = choose|j: int|
                    0 <= j < pre.memory_mods().len() && pre.memory_mods()[j] == mm;
                assert(pre.module_honest(pre.memory_mods()[j]));
            }
        }
    }

    /// Removes the unevictable slot for `checksum`, if any.  The module
    /// may still be handed out again later — through the memory tier or a
    /// recompile — it just loses its immunity to eviction.
    pub fn unpin(&mut self, checksum: &Checksum)
        requires
            old(self).wf(),
        ensures
            final(self).wf(),
            !final(self).pinned_has(checksum@),
            forall|k2: Seq<u8>|
                k2 != checksum@ ==> #[trigger] seq_has_key(final(self).pinned_mods(), k2)
                    == seq_has_key(old(self).pinned_mods(), k2),
            !old(self).pinned_has(checksum@) ==> final(self).pinned_mods() == old(
                self,
            ).pinned_mods(),
            final(self).memory_mods() == old(self).memory_mods(),
            final(self).raw_map() == old(self).raw_map(),
            final(self).artifact_map() == old(self).artifact_map(),
            final(self).report_map() == old(self).report_map(),
            final(self).spec_stats() == old(self).spec_stats(),
            final(self).spec_caps() == old(self).spec_caps(),
            final(self).spec_memory_capacity() == old(self).spec_memory_capacity(),
            final(self).spec_instance_memory_limit() == old(self).spec_instance_memory_limit(),
    {
        let ghost pre = *old(self);
        self.pinned.remove(checksum);
        proof {
            assert forall|k2: Seq<u8>|
                !(#[trigger] seq_has_key(self.pinned_mods(), k2) && seq_has_key(
                    self.memory_mods(),
                    k2,
                )) by {
                if k2 != checksum@ {
                    assert(seq_has_key(self.pinned_mods(), k2) == seq_has_key(
                        pre.pinned_mods(),
                        k2,
                    ));
                    assert(seq_has_key(self.memory_mods(), k2) == seq_has_key(
                        pre.memory_mods(),
                        k2,
                    ));
                }
            }
            Cache::lemma_wf_rebuild(&pre, self);
        }
    }
}

/// What one instantiate call does to the cache.  The waterfall visits
/// pinned tier, memory tier, stored artifact, recompilation, in that
/// order; the first stage that answers bumps its counter and no other.
/// A hit in the artifact stage or a recompilation makes the module
/// memory-resident; a recompilation also records a fresh artifact.  An
/// unknown checksum still counts as a miss, and changes nothing else.
pub open spec fn instantiate_outcome(pre: Cache, post: Cache, k: Seq<u8>) -> bool {
    &&& post.spec_caps() == pre.spec_caps()
    &&& post.spec_memory_capacity() == pre.spec_memory_capacity()
    &&& post.spec_instance_memory_limit() == pre.spec_instance_memory_limit()
    &&& post.raw_map() == pre.raw_map()
    &&& post.report_map() == pre.report_map()
    &&& if pre.pinned_has(k) {
        &&& post.spec_stats() == (Stats {
            hits_pinned_memory_cache: sat_inc(pre.spec_stats().hits_pinned_memory_cache),
            ..pre.spec_stats()
        })
        &&& post.pinned_mods() == pre.pinned_mods()
        &&& post.memory_mods() == pre.memory_mods()
        &&& post.artifact_map() == pre.artifact_map()
    } else if pre.memory_has(k) {
        &&& post.spec_stats() == (Stats {
            hits_memory_cache: sat_inc(pre.spec_stats().hits_memory_cache),
            ..pre.spec_stats()
        })
        &&& post.pinned_mods() == pre.pinned_mods()
        &&& post.artifact_map() == pre.artifact_map()
        &&& exists|i: int|
            0 <= i < pre.memory_mods().len() && pre.memory_mods()[i].checksum == k
                && post.memory_mods() == pre.memory_mods().remove(i).push(
                pre.memory_mods()[i],
            )
        &&& forall|k2: Seq<u8>|
            #[trigger] seq_has_key(post.memory_mods(), k2) == seq_has_key(
                pre.memory_mods(),
                k2,
            )
    } else if pre.artifact_hit(k) {
        &&& post.spec_stats() == (Stats {
            hits_fs_cache: sat_inc(pre.spec_stats().hits_fs_cache),
            ..pre.spec_stats()
        })
        &&& post.pinned_mods() == pre.pinned_mods()
        &&& post.artifact_map() == pre.artifact_map()
        &&& memory_insert_outcome(
            pre.memory_mods(),
            post.memory_mods(),
            pre.spec_memory_capacity(),
            spec_compile(pre.raw_map()[k], ENGINE_VERSION),
        )
    } else if pre.raw_map().contains_key(k) {
        &&& post.spec_stats() == (Stats { misses: sat_inc(pre.spec_stats().misses), ..pre.spec_stats() })
        &&& post.pinned_mods() == pre.pinned_mods()
        &&& post.artifact_map() == pre.artifact_map().insert(
            k,
            serialize_spec(spec_compile(pre.raw_map()[k], ENGINE_VERSION)),
        )
        &&& memory_insert_outcome(
            pre.memory_mods(),
            post.memory_mods(),
            pre.spec_memory_capacity(),
            spec_compile(pre.raw_map()[k], ENGINE_VERSION),
        )
    } else {
        &&& post.spec_stats() == (Stats { misses: sat_inc(pre.spec_stats().misses), ..pre.spec_stats() })
        &&& post.pinned_mods() == pre.pinned_mods()
        &&& post.memory_mods() == pre.memory_mods()
        &&& post.artifact_map() == pre.artifact_map()
    }
}

impl Cache {
    /// Resolves `checksum` to a fresh instance through the waterfall and
    /// hands it the caller's backend and resource options.  Succeeds for
    /// exactly the checksums whose raw bytecode is on record, and the
    /// instance always runs the module of that bytecode — never a stale
    /// or foreign artifact.
    pub fn get_instance<B>(
        &mut self,
        checksum: &Checksum,
        backend: B,
        options: InstanceOptions,
    ) -> (r: Result<Instance<B>, VmError>)
        requires
            old(self).wf(),
        ensures
            final(self).wf(),
            instantiate_outcome(*old(self), *final(self), checksum@),
            r is Ok <==> old(self).raw_map().contains_key(checksum@),
            r matches Ok(inst) ==> inst.spec_module() == spec_compile(
                old(self).raw_map()[checksum@],
                ENGINE_VERSION,
            ) && inst.spec_backend() == backend && inst.spec_gas_left() == options.gas_limit
                && inst.spec_memory_limit() == old(self).spec_instance_memory_limit(),
            r matches Err(e) ==> (e matches VmError::NotFound(ck) && ck@ == checksum@),
    {
        let ghost pre = *old(self);
        match self.pinned.lookup(checksum) {
            Some(m) => {
                self.stats = Stats {
                    hits_pinned_memory_cache: sat_add_one(self.stats.hits_pinned_memory_cache),
                    ..self.stats
                };
                proof {
                    let i = choose|i: int|
                        0 <= i < pre.pinned_mods().len() && pre.pinned_mods()[i] == m@;
                    assert(pre.module_honest(m@));
                    Cache::lemma_wf_transfer(&pre, self);
                }
                return Ok(Instance::from_module(m, backend, options,
                    self.instance_memory_limit));
            },
            None => {},
        }
        match self.memory.lookup(checksum) {
            Some(m) => {
                self.stats = Stats {
                    hits_memory_cache: sat_add_one(self.stats.hits_memory_cache),
                    ..self.stats
                };
                proof {
                    let i = choose|i: int|
                        0 <= i < pre.memory_mods().len() && pre.memory_mods()[i] == m@;
                    assert(pre.module_honest(m@));
                    assert forall|k2: Seq<u8>|
                        !(#[trigger] seq_has_key(self.pinned_mods(), k2) && seq_has_key(
                            self.memory_mods(),
                            k2,
                        )) by {
                        assert(seq_has_key(self.pinned_mods(), k2) == seq_has_key(
                            pre.pinned_mods(),
                            k2,
                        ));
                        assert(seq_has_key(self.memory_mods(), k2) == seq_has_key(
                            pre.memory_mods(),
                            k2,
                        ));
                    }
                    Cache::lemma_wf_rebuild(&pre, self);
                }
                return Ok(Instance::from_module(m, backend, options,
                    self.instance_memory_limit));
            },
            None => {},
        }
        proof {
            Cache::lemma_wf_transfer(&pre, self);
        }
        match self.read_compiled(checksum) {
            Some(m) => {
                self.stats = Stats {
                    hits_fs_cache: sat_add_one(self.stats.hits_fs_cache),
                    ..self.stats
                };
                let ghost mid = self.memory.modules();
                self.memory.insert(m);
                proof {
                    lemma_insert_membership(mid, self.memory_mods(),
                        pre.spec_memory_capacity(), m@);
                    assert forall|k2: Seq<u8>|
                        !(#[trigger] seq_has_key(self.pinned_mods(), k2) && seq_has_key(
                            self.memory_mods(),
                            k2,
                        )) by {
                        assert(seq_has_key(self.pinned_mods(), k2) == seq_has_key(
                            pre.pinned_mods(),
                            k2,
                        ));
                        if seq_has_key(self.memory_mods(), k2) {
                            assert(seq_has_key(pre.memory_mods(), k2) || k2 == m@.checksum);
                        }
                    }
                    Cache::lemma_wf_rebuild(&pre, self);
                }
                return Ok(Instance::from_module(m, backend, options,
                    self.instance_memory_limit));
            },
            None => {},
        }
        self.stats = Stats { misses: sat_add_one(self.stats.misses), ..self.stats };
        let m = match self.raw.read(checksum) {
            Some(code) => modules::compile(code.as_slice(), ENGINE_VERSION),
            None => {
                proof {
                    Cache::lemma_wf_transfer(&pre, self);
                }
                return Err(VmError::NotFound(*checksum));
            },
        };
        proof {
            assert(m@.checksum == checksum@);
        }
        let bytes = m.serialize();
        self.artifacts.put(*checksum, bytes);
        let ghost mid = self.memory.modules();
        self.memory.insert(m);
        proof {
            lemma_insert_membership(mid, self.memory_mods(), pre.spec_memory_capacity(), m@);
            assert forall|k2: Seq<u8>|
                !(#[trigger] seq_has_key(self.pinned_mods(), k2) && seq_has_key(
                    self.memory_mods(),
                    k2,
                )) by {
                assert(seq_has_key(self.pinned_mods(), k2) == seq_has_key(
                    pre.pinned_mods(),
                    k2,
                ));
                if seq_has_key(self.memory_mods(), k2) {
                    assert(seq_has_key(pre.memory_mods(), k2) || k2 == m@.checksum);
                }
            }
            Cache::lemma_wf_rebuild(&pre, self);
        }
        Ok(Instance::from_module(m, backend, options, self.instance_memory_limit))
    }

    /// Brings a serialized artifact read back from durable storage into
    /// the cache: the embedding application calls this at start-up for
    /// each artifact file it finds.  The artifact is accepted only for a
    /// checksum whose raw bytecode is on record, and only if it does not
    /// deserialize to a module that contradicts that bytecode; an
    /// artifact that fails to deserialize at all is kept and will simply
    /// miss.
    pub fn restore_artifact(&mut self, checksum: &Checksum, bytes: Vec<u8>) -> (r: bool)
        requires
            old(self).wf(),
        ensures
            final(self).wf(),
            r == (old(self).raw_map().contains_key(checksum@) && (deserialize_spec(
                bytes@,
                ENGINE_VERSION,
            ) matches Some(m) ==> m == spec_compile(
                old(self).raw_map()[checksum@],
                ENGINE_VERSION,
            ))),
            r ==> final(self).artifact_map() == old(self).artifact_map().insert(
                checksum@,
                bytes@,
            ),
            !r ==> final(self).artifact_map() == old(self).artifact_map(),
            final(self).raw_map() == old(self).raw_map(),
            final(self).report_map() == old(self).report_map(),
            final(self).pinned_mods() == old(self).pinned_mods(),
            final(self).memory_mods() == old(self).memory_mods(),
            final(self).spec_stats() == old(self).spec_stats(),
            final(self).spec_caps() == old(self).spec_caps(),
            final(self).spec_memory_capacity() == old(self).spec_memory_capacity(),
            final(self).spec_instance_memory_limit() == old(self).spec_instance_memory_limit(),
    {
        let ghost pre = *old(self);
        let code_len = match self.raw.read(checksum) {
            Some(code) => code.len(),
            None => {
                return false;
            },
        };
        match CompiledModule::deserialize(bytes.as_slice(), ENGINE_VERSION) {
            Some(m) => {
                if !(m.checksum == *checksum) {
                    return false;
                }
                if m.code_size != code_len {
                    return false;
                }
                proof {
                    assert(m@ == spec_compile(pre.raw_map()[checksum@], ENGINE_VERSION));
                }
            },
            None => {},
        }
        self.artifacts.put(*checksum, bytes);
        proof {
            assert forall|k: Seq<u8>|
                #[trigger] self.raw_map().contains_key(k) implies k.len() == 20 && k
                == sha1_of(self.raw_map()[k]) && self.raw_map()[k].len() <= usize::MAX by {
                assert(pre.raw_map().contains_key(k));
            }
            assert forall|k: Seq<u8>|
                #[trigger] self.report_map().contains_key(k) <==> self.raw_map().contains_key(
                k,
            ) by {
                assert(pre.report_map().contains_key(k) <==> pre.raw_map().contains_key(k));
            }
            assert forall|k: Seq<u8>|
                #[trigger] self.report_map().contains_key(k) implies analyze_spec(
                self.raw_map()[k],
            ) == Ok::<ReportView, ValidationError>(self.report_map()[k]) by {
                assert(pre.report_map().contains_key(k));
            }
            assert forall|k: Seq<u8>|
                #[trigger] self.artifact_map().contains_key(k) implies
                self.raw_map().contains_key(k) by {
                if k != checksum@ {
                    assert(pre.artifact_map().contains_key(k));
                }
            }
            assert forall|k: Seq<u8>|
                self.artifact_map().contains_key(k) implies ((#[trigger] deserialize_spec(
                self.artifact_map()[k],
                ENGINE_VERSION,
            )) matches Some(m) ==> m == spec_compile(self.raw_map()[k], ENGINE_VERSION)) by {
                if k != checksum@ {
                    assert(pre.artifact_map().contains_key(k));
                    assert((deserialize_spec(pre.artifact_map()[k], ENGINE_VERSION))
                        matches Some(m) ==> m == spec_compile(pre.raw_map()[k],
                        ENGINE_VERSION));
                }
            }
            assert forall|i: int|
                0 <= i < self.pinned_mods().len() implies self.module_honest(
                #[trigger] self.pinned_mods()[i],
            ) by {
                assert(pre.module_honest(pre.pinned_mods()[i]));
            }
            assert forall|i: int|
                0 <= i < self.memory_mods().len() implies self.module_honest(
                #[trigger] self.memory_mods()[i],
            ) by {
                assert(pre.module_honest(pre.memory_mods()[i]));
            }
            assert forall|k2: Seq<u8>|
                !(#[trigger] seq_has_key(self.pinned_mods(), k2) && seq_has_key(
                    self.memory_mods(),
                    k2,
                )) by {
                assert(seq_has_key(self.pinned_mods(), k2) == seq_has_key(
                    pre.pinned_mods(),
                    k2,
                ));
                assert(seq_has_key(self.memory_mods(), k2) == seq_has_key(
                    pre.memory_mods(),
                    k2,
                ));
            }
        }
        true
    }

    /// The capacity bound holds at every reachable state: the combined
    /// code size of the memory tier's residents never exceeds its
    /// configured capacity, and no pinned checksum is accounted there —
    /// so eviction, which happens only in the memory tier, can never
    /// touch a pinned module.
    pub proof fn lemma_memory_capacity_bound(&self)
        requires
            self.wf(),
        ensures
            crate::memory_cache::size_sum(self.memory_mods()) <= self.spec_memory_capacity(),
            forall|k: Seq<u8>| self.pinned_has(k) ==> !self.memory_has(k),
    {
        self.memory.lemma_capacity_bound();
        assert forall|k: Seq<u8>| self.pinned_has(k) implies !self.memory_has(k) by {
            assert(!(seq_has_key(self.pinned_mods(), k) && seq_has_key(
                self.memory_mods(),
                k,
            )));
        }
    }

    /// The serialized artifact stored for `checksum`, if any: what the
    /// embedding application writes to durable storage.
    pub fn artifact_bytes(&self, checksum: &Checksum) -> (r: Option<&Vec<u8>>)
        requires
            self.wf(),
        ensures
            r is Some <==> self.artifact_map().contains_key(checksum@),
            r matches Some(v) ==> v@ == self.artifact_map()[checksum@],
    {
        self.artifacts.read(checksum)
    }
}

} // verus!
