use vm_cache::analyze;
use vm_cache::analyzer::BYTECODE_VERSION;
use vm_cache::ValidationError;

fn module_bytes(caps: &[&[u8]], exports: &[&[u8]], body: &[u8]) -> Vec<u8> {
    let mut v = vec![0x00, 0x6d, 0x6f, 0x64, BYTECODE_VERSION];
    v.push(caps.len() as u8);
    for c in caps {
        v.push(c.len() as u8);
        v.extend_from_slice(c);
    }
    v.push(exports.len() as u8);
    for e in exports {
        v.push(e.len() as u8);
        v.extend_from_slice(e);
    }
    v.extend_from_slice(body);
    v
}

#[test]
fn analyze_extracts_capabilities_and_exports() {
    let wasm = module_bytes(
        &[b"iterator", b"staking"],
        &[b"instantiate", b"execute", b"query"],
        b"contract body",
    );
    let report = analyze(&wasm).unwrap();
    assert!(report.required_capabilities.contains(b"iterator"));
    assert!(report.required_capabilities.contains(b"staking"));
    assert!(!report.required_capabilities.contains(b"stargate"));
    assert_eq!(report.entry_points.len(), 3);
    assert_eq!(report.entry_points[0], b"instantiate".to_vec());
    assert_eq!(report.entry_points[1], b"execute".to_vec());
    assert!(!report.has_ibc_entry_points);
}

#[test]
fn analyze_sets_the_ibc_flag() {
    let wasm = module_bytes(&[], &[b"instantiate", b"ibc_channel_open"], b"");
    let report = analyze(&wasm).unwrap();
    assert!(report.has_ibc_entry_points);
}

#[test]
fn analyze_rejects_short_input() {
    assert!(matches!(analyze(b"\0mo"), Err(ValidationError::Truncated)));
    assert!(matches!(analyze(b""), Err(ValidationError::Truncated)));
}

#[test]
fn analyze_rejects_wrong_magic() {
    let wasm = b"\0asm\x01\x00\x00\x00";
    assert!(matches!(analyze(wasm), Err(ValidationError::WrongMagic)));
}

#[test]
fn analyze_rejects_unsupported_version() {
    let mut wasm = module_bytes(&[], &[b"instantiate"], b"");
    wasm[4] = 9;
    assert!(matches!(
        analyze(&wasm),
        Err(ValidationError::UnsupportedVersion(9))
    ));
}

#[test]
fn analyze_rejects_truncated_name() {
    // One capability announced, its length byte says ten bytes, but the
    // input ends first.
    let wasm = vec![0x00, 0x6d, 0x6f, 0x64, BYTECODE_VERSION, 1, 10, b'a', b'b'];
    assert!(matches!(analyze(&wasm), Err(ValidationError::Truncated)));
}

#[test]
fn analyze_rejects_missing_entry_point() {
    let wasm = module_bytes(&[], &[b"execute", b"query"], b"");
    assert!(matches!(
        analyze(&wasm),
        Err(ValidationError::MissingEntryPoint)
    ));
}

#[test]
fn analyze_allows_trailing_body() {
    let with_body = module_bytes(&[], &[b"instantiate"], b"lots of opaque body bytes here");
    let without_body = module_bytes(&[], &[b"instantiate"], b"");
    assert!(analyze(&with_body).is_ok());
    assert!(analyze(&without_body).is_ok());
}
