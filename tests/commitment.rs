use guess_secret::{digests_equal, first_opening, hash_with_salt};
use std::collections::HashSet;

#[test]
fn commitment_is_deterministic() {
    assert_eq!(hash_with_salt(200, "mysalt"), hash_with_salt(200, "mysalt"));
    assert_eq!(hash_with_salt(0, ""), hash_with_salt(0, ""));
}

#[test]
fn commitments_of_distinct_values_differ() {
    let mut seen = HashSet::new();
    for v in 0..=255u8 {
        assert!(seen.insert(hash_with_salt(v, "mysalt")));
    }
    assert_eq!(seen.len(), 256);
}

#[test]
fn commitment_depends_on_salt() {
    assert_ne!(hash_with_salt(200, "mysalt"), hash_with_salt(200, "wrongsalt"));
}

#[test]
fn commitment_is_blake2b_128_of_value_then_salt() {
    assert_eq!(
        hash_with_salt(200, "mysalt"),
        [0, 5, 71, 185, 70, 81, 39, 151, 150, 172, 106, 87, 203, 5, 198, 7]
    );
    assert_eq!(
        hash_with_salt(0, ""),
        [112, 37, 224, 117, 213, 226, 246, 205, 227, 204, 5, 26, 49, 240, 118, 96]
    );
}

#[test]
fn commitment_hashes_salt_as_utf8() {
    assert_eq!(
        hash_with_salt(7, "s\u{e9}l"),
        [140, 69, 125, 186, 82, 36, 182, 239, 98, 52, 245, 254, 210, 205, 185, 132]
    );
}

#[test]
fn digests_equal_compares_every_byte() {
    let a = [3u8; 16];
    let mut b = [3u8; 16];
    assert!(digests_equal(&a, &b));
    b[15] = 4;
    assert!(!digests_equal(&a, &b));
}

#[test]
fn first_opening_picks_the_first_match() {
    let c = [1u8; 16];
    let other = [2u8; 16];
    assert_eq!(first_opening(&[other, c, c], &c, &c), Some(1));
    assert_eq!(first_opening(&[c], &c, &c), Some(0));
}

#[test]
fn first_opening_needs_the_secret_to_open() {
    let c = [1u8; 16];
    let other = [2u8; 16];
    assert_eq!(first_opening(&[other, c], &other, &c), None);
}

#[test]
fn first_opening_of_no_match() {
    let c = [1u8; 16];
    let other = [2u8; 16];
    assert_eq!(first_opening(&[other, other], &c, &c), None);
    assert_eq!(first_opening(&[], &c, &c), None);
}
