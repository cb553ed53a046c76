use vm_cache::proto_patch::{is_excluded_proto_file, patch_generated_source, replace_all_bytes};

#[test]
fn excluded_packages_are_skipped() {
    assert!(is_excluded_proto_file(b"gogoproto.rs"));
    assert!(is_excluded_proto_file(b"google.protobuf.rs"));
    assert!(is_excluded_proto_file(b"ostracon.types.rs"));
    assert!(!is_excluded_proto_file(b"lfb.bank.v1beta1.rs"));
    assert!(!is_excluded_proto_file(b"googleapis.rs"));
    assert!(!is_excluded_proto_file(b""));
}

#[test]
fn replace_all_replaces_every_occurrence() {
    assert_eq!(replace_all_bytes(b"aXbXc", b"X", b"--"), b"a--b--c".to_vec());
    assert_eq!(replace_all_bytes(b"aaaa", b"aa", b"b"), b"bb".to_vec());
    assert_eq!(replace_all_bytes(b"nothing here", b"zz", b"y"), b"nothing here".to_vec());
    assert_eq!(replace_all_bytes(b"", b"zz", b"y"), b"".to_vec());
    assert_eq!(replace_all_bytes(b"abc", b"", b"y"), b"abc".to_vec());
    assert_eq!(replace_all_bytes(b"ababab", b"ab", b""), b"".to_vec());
}

#[test]
fn patch_rewrites_consensus_paths() {
    let input = b"pub type Header = super::super::ostracon::types::Header;".to_vec();
    let out = patch_generated_source(&input).unwrap();
    assert_eq!(
        out,
        b"pub type Header = ostracon_proto::types::Header;".to_vec()
    );

    let single = b"use super::ostracon::abci;".to_vec();
    let out = patch_generated_source(&single).unwrap();
    assert_eq!(out, b"use ostracon_proto::abci;".to_vec());
}

#[test]
fn patch_gates_generated_clients() {
    let input = b"#[doc = r\" Generated client implementations.\"]\npub mod query_client {}".to_vec();
    let out = patch_generated_source(&input).unwrap();
    let expected = b"#[cfg(feature = \"grpc\")]\n#[cfg_attr(docsrs, doc(cfg(feature = \"grpc\")))]\n#[doc = r\" Generated client implementations.\"]\npub mod query_client {}".to_vec();
    assert_eq!(out, expected);
}

#[test]
fn patch_leaves_plain_sources_alone() {
    let input = b"pub struct MsgSend { pub amount: u64 }".to_vec();
    let out = patch_generated_source(&input).unwrap();
    assert_eq!(out, input);
}
