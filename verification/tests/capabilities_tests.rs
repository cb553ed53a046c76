use vm_cache::{capabilities_from_csv, CapabilitySet};

#[test]
fn csv_parsing() {
    let caps = capabilities_from_csv(b"iterator,staking");
    assert!(caps.contains(b"iterator"));
    assert!(caps.contains(b"staking"));
    assert!(!caps.contains(b"stargate"));
}

#[test]
fn csv_drops_empty_segments() {
    let caps = capabilities_from_csv(b"a,,b,");
    assert!(caps.contains(b"a"));
    assert!(caps.contains(b"b"));
    assert!(!caps.contains(b""));
    assert!(capabilities_from_csv(b"").is_empty());
    assert!(capabilities_from_csv(b",,,").is_empty());
}

#[test]
fn csv_duplicates_collapse() {
    let caps = capabilities_from_csv(b"iterator,iterator,iterator");
    assert!(caps.contains(b"iterator"));
}

#[test]
fn subset_and_difference() {
    let mut required = CapabilitySet::new();
    required.insert(b"iterator".to_vec());
    required.insert(b"stargate".to_vec());
    let available = capabilities_from_csv(b"iterator,staking");

    assert!(!required.is_subset_of(&available));
    let missing = required.difference(&available);
    assert!(missing.contains(b"stargate"));
    assert!(!missing.contains(b"iterator"));

    let mut small = CapabilitySet::new();
    small.insert(b"staking".to_vec());
    assert!(small.is_subset_of(&available));
    assert!(small.difference(&available).is_empty());
    assert!(CapabilitySet::new().is_subset_of(&available));
}

#[test]
fn insert_is_set_like() {
    let mut set = CapabilitySet::new();
    assert!(set.is_empty());
    set.insert(b"iterator".to_vec());
    set.insert(b"iterator".to_vec());
    assert!(!set.is_empty());
    assert!(set.contains(b"iterator"));
}
