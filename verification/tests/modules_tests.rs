use vm_cache::modules::{compile, CompiledModule};
use vm_cache::{Checksum, ENGINE_VERSION};

#[test]
fn compile_is_deterministic() {
    let wasm = b"some raw bytecode";
    let m1 = compile(wasm, ENGINE_VERSION);
    let m2 = compile(wasm, ENGINE_VERSION);
    assert_eq!(m1.checksum, m2.checksum);
    assert_eq!(m1.code_size, wasm.len());
    assert_eq!(m1.engine_version, ENGINE_VERSION);
    assert_eq!(m1.checksum, Checksum::generate(wasm));
}

#[test]
fn artifact_round_trip() {
    let m = compile(b"raw bytecode of some contract", ENGINE_VERSION);
    let bytes = m.serialize();
    assert_eq!(bytes.len(), 36);
    let back = CompiledModule::deserialize(&bytes, ENGINE_VERSION).unwrap();
    assert_eq!(back.checksum, m.checksum);
    assert_eq!(back.code_size, m.code_size);
    assert_eq!(back.engine_version, m.engine_version);
}

#[test]
fn version_mismatch_is_a_miss() {
    let m = compile(b"raw bytecode", ENGINE_VERSION);
    let bytes = m.serialize();
    assert!(CompiledModule::deserialize(&bytes, ENGINE_VERSION + 1).is_none());
}

#[test]
fn corrupt_artifact_is_a_miss() {
    let m = compile(b"raw bytecode", ENGINE_VERSION);
    let bytes = m.serialize();

    let mut wrong_magic = bytes.clone();
    wrong_magic[0] ^= 0xff;
    assert!(CompiledModule::deserialize(&wrong_magic, ENGINE_VERSION).is_none());

    let truncated = &bytes[..35];
    assert!(CompiledModule::deserialize(truncated, ENGINE_VERSION).is_none());

    let mut padded = bytes.clone();
    padded.push(0);
    assert!(CompiledModule::deserialize(&padded, ENGINE_VERSION).is_none());
}
