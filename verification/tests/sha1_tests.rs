use vm_cache::checksum::Checksum;
use vm_cache::sha1_calculate;

#[test]
fn test_sha1_calculate() {
    let message = b"The quick brown fox jumps over the lazy dog";
    let result = sha1_calculate(message).unwrap();
    assert_eq!(
        result.to_vec(),
        hex::decode("2fd4e1c67a2d28fced849ee1bb76e7391b93eb12").unwrap()
    )
}

#[test]
fn sha1_of_empty_input() {
    let result = sha1_calculate(b"").unwrap();
    assert_eq!(
        result.to_vec(),
        hex::decode("da39a3ee5e6b4b0d3255bfef95601890afd80709").unwrap()
    )
}

#[test]
fn checksum_generate_is_the_digest() {
    let message = b"The quick brown fox jumps over the lazy dog";
    let checksum = Checksum::generate(message);
    assert_eq!(
        checksum.as_bytes().to_vec(),
        hex::decode("2fd4e1c67a2d28fced849ee1bb76e7391b93eb12").unwrap()
    );
}

#[test]
fn checksum_hex_encoding() {
    let checksum = Checksum::generate(b"The quick brown fox jumps over the lazy dog");
    assert_eq!(
        checksum.to_hex(),
        b"2fd4e1c67a2d28fced849ee1bb76e7391b93eb12".to_vec()
    );
}

#[test]
fn checksum_hex_round_trip() {
    let checksum = Checksum::generate(b"round trip me");
    let encoded = checksum.to_hex();
    assert_eq!(Checksum::from_hex(&encoded), Some(checksum));
    assert_eq!(Checksum::from_hex(b"definitely not hex"), None);
    assert_eq!(Checksum::from_hex(b"2fd4"), None);
    // Upper case is not the canonical form to_hex writes.
    assert_eq!(
        Checksum::from_hex(b"2FD4E1C67A2D28FCED849EE1BB76E7391B93EB12"),
        None
    );
}

#[test]
fn checksum_round_trips_through_bytes() {
    let checksum = Checksum::generate(b"some contract");
    let copy = Checksum::from_bytes(*checksum.as_bytes());
    assert_eq!(checksum, copy);
    let copy2 = Checksum::from_slice(&checksum.as_bytes()[..]);
    assert_eq!(checksum, copy2);
    let other = Checksum::generate(b"another contract");
    assert!(checksum != other);
}

#[test]
fn content_addresses_are_distinct() {
    // Pseudo-random fixtures from a small linear congruential generator:
    // distinct byte sequences must give pairwise distinct checksums.
    let mut checksums: Vec<Checksum> = Vec::new();
    let mut state: u64 = 0x2545f4914f6cdd1d;
    for i in 0..120u64 {
        let mut payload = vec![0u8; 16 + (i as usize % 32)];
        for b in payload.iter_mut() {
            state = state.wrapping_mul(6364136223846793005).wrapping_add(1442695040888963407);
            *b = (state >> 33) as u8;
        }
        payload.extend_from_slice(&i.to_le_bytes());
        checksums.push(Checksum::generate(&payload));
    }
    for i in 0..checksums.len() {
        for j in (i + 1)..checksums.len() {
            assert!(checksums[i] != checksums[j], "collision between {} and {}", i, j);
        }
    }
}
