use vm_cache::analyzer::BYTECODE_VERSION;
use vm_cache::{capabilities_from_csv, Cache, CacheOptions, InstanceOptions, VmError};

fn module_bytes(caps: &[&[u8]], exports: &[&[u8]], body: &[u8]) -> Vec<u8> {
    let mut v = vec![0x00, 0x6d, 0x6f, 0x64, BYTECODE_VERSION];
    v.push(caps.len() as u8);
    for c in caps {
        v.push(c.len() as u8);
        v.extend_from_slice(c);
    }
    v.push(exports.len() as u8);
    for e in exports {
        v.push(e.len() as u8);
        v.extend_from_slice(e);
    }
    v.extend_from_slice(body);
    v
}

/// A valid contract padded so that the whole bytecode is `size` bytes.
fn sized_contract(tag: u8, size: usize) -> Vec<u8> {
    let mut v = module_bytes(&[b"iterator"], &[b"instantiate"], &[tag]);
    assert!(v.len() <= size);
    while v.len() < size {
        v.push(tag);
    }
    v
}

fn test_cache(capacity: usize) -> Cache {
    Cache::new(CacheOptions {
        available_capabilities: capabilities_from_csv(b"iterator,staking"),
        memory_cache_size: capacity,
        instance_memory_limit: 64 * 1024 * 1024,
    })
}

fn options() -> InstanceOptions {
    InstanceOptions { gas_limit: 1_000_000, print_debug: false }
}

#[test]
fn save_is_idempotent() {
    let mut cache = test_cache(4096);
    let wasm = sized_contract(1, 64);
    let checksum1 = cache.save_wasm(&wasm).unwrap();
    let checksum2 = cache.save_wasm(&wasm).unwrap();
    assert_eq!(checksum1, checksum2);
    assert_eq!(cache.load_wasm(&checksum1).unwrap(), wasm);
}

#[test]
fn save_rejects_malformed_bytecode() {
    let mut cache = test_cache(4096);
    let err = cache.save_wasm(b"\0asm not our container").unwrap_err();
    assert!(matches!(err, VmError::Validation(_)));
}

#[test]
fn capability_gate_names_every_missing_capability() {
    let mut cache = test_cache(4096);
    let wasm = module_bytes(
        &[b"iterator", b"stargate", b"ibc3"],
        &[b"instantiate"],
        b"",
    );
    match cache.save_wasm(&wasm).unwrap_err() {
        VmError::MissingCapabilities(missing) => {
            assert!(missing.contains(b"stargate"));
            assert!(missing.contains(b"ibc3"));
            assert!(!missing.contains(b"iterator"));
        },
        other => panic!("expected MissingCapabilities, got {:?}", other),
    }
    // Nothing was persisted: the address is not loadable afterwards.
    let checksum = vm_cache::Checksum::generate(&wasm);
    assert!(matches!(cache.load_wasm(&checksum), Err(VmError::NotFound(_))));
    assert!(cache.analyze(&checksum).is_err());
}

#[test]
fn load_and_analyze_unknown_address() {
    let cache = test_cache(4096);
    let checksum = vm_cache::Checksum::generate(b"never saved");
    assert!(matches!(cache.load_wasm(&checksum), Err(VmError::NotFound(_))));
    assert!(matches!(cache.analyze(&checksum), Err(VmError::NotFound(_))));
}

#[test]
fn analyze_returns_the_saved_report() {
    let mut cache = test_cache(4096);
    let wasm = module_bytes(&[b"staking"], &[b"instantiate", b"query"], b"x");
    let checksum = cache.save_wasm(&wasm).unwrap();
    let report = cache.analyze(&checksum).unwrap();
    assert!(report.required_capabilities.contains(b"staking"));
    assert_eq!(report.entry_points.len(), 2);
    assert!(!report.has_ibc_entry_points);
}

#[test]
fn cold_cache_waterfall() {
    let mut cache = test_cache(4096);
    let wasm = sized_contract(2, 64);
    let checksum = cache.save_wasm(&wasm).unwrap();

    cache.get_instance(&checksum, 0u32, options()).unwrap();
    let s = cache.stats();
    assert_eq!(s.misses, 1);
    assert_eq!(s.hits_pinned_memory_cache, 0);
    assert_eq!(s.hits_memory_cache, 0);
    assert_eq!(s.hits_fs_cache, 0);

    cache.get_instance(&checksum, 0u32, options()).unwrap();
    let s = cache.stats();
    assert_eq!(s.misses, 1);
    assert_eq!(s.hits_memory_cache, 1);
    assert_eq!(s.hits_fs_cache, 0);
}

#[test]
fn instantiate_unknown_address_counts_a_miss() {
    let mut cache = test_cache(4096);
    let checksum = vm_cache::Checksum::generate(b"never saved");
    let err = match cache.get_instance(&checksum, (), options()) {
        Err(err) => err,
        Ok(_) => panic!("expected an error for an unknown address"),
    };
    assert!(matches!(err, VmError::NotFound(_)));
    assert_eq!(cache.stats().misses, 1);
}

#[test]
fn pin_bypasses_lower_tiers() {
    let mut cache = test_cache(4096);
    let wasm = sized_contract(3, 64);
    let checksum = cache.save_wasm(&wasm).unwrap();
    cache.pin(&checksum).unwrap();
    // Pinning itself moves no counter.
    assert_eq!(cache.stats().misses, 0);
    assert_eq!(cache.stats().hits_fs_cache, 0);

    for _ in 0..10 {
        cache.get_instance(&checksum, (), options()).unwrap();
    }
    let s = cache.stats();
    assert_eq!(s.hits_pinned_memory_cache, 10);
    assert_eq!(s.hits_memory_cache, 0);
    assert_eq!(s.hits_fs_cache, 0);
    assert_eq!(s.misses, 0);

    // Pinning twice is a no-op; unpinning releases the slot, after which
    // the stored artifact answers and the lower-tier counters move again.
    cache.pin(&checksum).unwrap();
    cache.unpin(&checksum);
    cache.get_instance(&checksum, (), options()).unwrap();
    let s = cache.stats();
    assert_eq!(s.hits_pinned_memory_cache, 10);
    assert_eq!(s.hits_fs_cache, 1);
}

#[test]
fn pin_unknown_address_fails() {
    let mut cache = test_cache(4096);
    let checksum = vm_cache::Checksum::generate(b"never saved");
    assert!(matches!(cache.pin(&checksum), Err(VmError::NotFound(_))));
}

#[test]
fn eviction_under_capacity_pressure() {
    // Three modules of 100 bytes each against a 250-byte capacity: two
    // fit, the least recently used one is evicted.
    let mut cache = test_cache(250);
    let a = sized_contract(10, 100);
    let b = sized_contract(11, 100);
    let c = sized_contract(12, 100);
    let ca = cache.save_wasm(&a).unwrap();
    let cb = cache.save_wasm(&b).unwrap();
    let cc = cache.save_wasm(&c).unwrap();

    cache.get_instance(&ca, (), options()).unwrap(); // miss, memory: [A]
    cache.get_instance(&cb, (), options()).unwrap(); // miss, memory: [A, B]
    cache.get_instance(&cc, (), options()).unwrap(); // miss, evicts A: [B, C]
    assert_eq!(cache.stats().misses, 3);

    // B is still resident; using it promotes it to most recently used.
    cache.get_instance(&cb, (), options()).unwrap(); // memory hit: [C, B]
    assert_eq!(cache.stats().hits_memory_cache, 1);

    // A was evicted: it comes back from its stored artifact, evicting C.
    cache.get_instance(&ca, (), options()).unwrap(); // fs hit: [B, A]
    assert_eq!(cache.stats().hits_fs_cache, 1);
    assert_eq!(cache.stats().misses, 3);

    // C was evicted in turn; B survived both evictions.
    cache.get_instance(&cc, (), options()).unwrap(); // fs hit: [A, C] or [B..]
    assert_eq!(cache.stats().hits_fs_cache, 2);
    cache.get_instance(&cb, (), options()).unwrap();
    assert_eq!(cache.stats().hits_fs_cache, 3);
}

#[test]
fn pinned_module_is_never_evicted() {
    let mut cache = test_cache(250);
    let a = sized_contract(20, 100);
    let b = sized_contract(21, 100);
    let c = sized_contract(22, 100);
    let ca = cache.save_wasm(&a).unwrap();
    let cb = cache.save_wasm(&b).unwrap();
    let cc = cache.save_wasm(&c).unwrap();

    cache.pin(&ca).unwrap();
    // Fill the memory tier past its capacity; the pinned module sits in
    // its own tier and stays untouched by the eviction.
    cache.get_instance(&cb, (), options()).unwrap();
    cache.get_instance(&cc, (), options()).unwrap();
    cache.get_instance(&cb, (), options()).unwrap();
    cache.get_instance(&cc, (), options()).unwrap();
    for _ in 0..5 {
        cache.get_instance(&ca, (), options()).unwrap();
    }
    let s = cache.stats();
    assert_eq!(s.hits_pinned_memory_cache, 5);
    assert_eq!(s.misses, 2);
}

#[test]
fn zero_capacity_disables_the_memory_tier() {
    let mut cache = test_cache(0);
    let wasm = sized_contract(30, 64);
    let checksum = cache.save_wasm(&wasm).unwrap();
    cache.get_instance(&checksum, (), options()).unwrap(); // miss
    cache.get_instance(&checksum, (), options()).unwrap(); // fs, not memory
    cache.get_instance(&checksum, (), options()).unwrap(); // fs again
    let s = cache.stats();
    assert_eq!(s.misses, 1);
    assert_eq!(s.hits_memory_cache, 0);
    assert_eq!(s.hits_fs_cache, 2);
}

#[test]
fn instance_gas_accounting() {
    let mut cache = test_cache(4096);
    let wasm = sized_contract(40, 64);
    let checksum = cache.save_wasm(&wasm).unwrap();
    let mut instance = cache
        .get_instance(&checksum, 7u32, InstanceOptions { gas_limit: 1000, print_debug: false })
        .unwrap();
    assert_eq!(instance.get_gas_left(), 1000);
    assert!(instance.consume_gas(400).is_ok());
    assert_eq!(instance.get_gas_left(), 600);
    assert!(matches!(instance.consume_gas(700), Err(VmError::GasDepletion)));
    assert_eq!(instance.get_gas_left(), 0);
    assert_eq!(instance.module().code_size, 64);
    assert_eq!(instance.memory_limit(), 64 * 1024 * 1024);
    assert_eq!(instance.recycle(), 7u32);
}

#[test]
fn restored_artifact_serves_filesystem_hits() {
    // First process: save and instantiate once, then keep the artifact
    // bytes, as the embedding application would before shutting down.
    let mut first = test_cache(4096);
    let wasm = sized_contract(50, 80);
    let checksum = first.save_wasm(&wasm).unwrap();
    first.get_instance(&checksum, (), options()).unwrap();
    let artifact = first.artifact_bytes(&checksum).unwrap().clone();

    // Second process: the raw bytecode is saved again, the artifact is
    // restored from storage, and the first instantiation is already a
    // filesystem-tier hit instead of a recompilation.
    let mut second = test_cache(4096);
    second.save_wasm(&wasm).unwrap();
    assert!(second.restore_artifact(&checksum, artifact));
    second.get_instance(&checksum, (), options()).unwrap();
    let s = second.stats();
    assert_eq!(s.misses, 0);
    assert_eq!(s.hits_fs_cache, 1);
}

#[test]
fn restore_rejects_a_lying_artifact() {
    let mut cache = test_cache(4096);
    let a = sized_contract(60, 80);
    let b = sized_contract(61, 90);
    let ca = cache.save_wasm(&a).unwrap();
    let cb = cache.save_wasm(&b).unwrap();
    cache.get_instance(&cb, (), options()).unwrap();
    let artifact_of_b = cache.artifact_bytes(&cb).unwrap().clone();

    // An artifact of another module must not be restorable under A.
    assert!(!cache.restore_artifact(&ca, artifact_of_b));
    // Nor anything under an address with no bytecode on record.
    let unknown = vm_cache::Checksum::generate(b"never saved");
    assert!(!cache.restore_artifact(&unknown, vec![1, 2, 3]));
}

#[test]
fn repeated_instantiation_accounts_every_call_once() {
    let mut cache = test_cache(4096);
    let wasm = sized_contract(70, 64);
    let checksum = cache.save_wasm(&wasm).unwrap();
    for _ in 0..100 {
        cache.get_instance(&checksum, (), options()).unwrap();
    }
    let s = cache.stats();
    assert_eq!(s.misses, 1);
    assert_eq!(s.hits_memory_cache, 99);
    assert_eq!(
        s.misses + s.hits_memory_cache + s.hits_fs_cache + s.hits_pinned_memory_cache,
        100
    );
}

#[test]
fn end_to_end_scenario() {
    // Three distinct contracts; one pinned; eight hundred instantiations
    // of each, interleaved — the single-threaded baseline of heavy mixed
    // traffic.
    let mut cache = test_cache(4096);
    let a = sized_contract(80, 120);
    let b = sized_contract(81, 120);
    let c = sized_contract(82, 120);
    let ca = cache.save_wasm(&a).unwrap();
    let cb = cache.save_wasm(&b).unwrap();
    let cc = cache.save_wasm(&c).unwrap();
    assert!(ca != cb && cb != cc && ca != cc);

    cache.pin(&ca).unwrap();
    for _ in 0..800 {
        cache.get_instance(&ca, (), options()).unwrap();
        cache.get_instance(&cb, (), options()).unwrap();
        cache.get_instance(&cc, (), options()).unwrap();
    }
    let s = cache.stats();
    assert_eq!(s.hits_pinned_memory_cache, 800);
    assert_eq!(s.misses, 2);
    assert_eq!(s.hits_memory_cache, 2 * 800 - 2);
    assert_eq!(s.hits_fs_cache, 0);
}
