use chadow_launcher::digest::{digest_matches, hex_string, normalize_digest, Sha1Hasher, Sha256Hasher};

#[test]
fn sha1_of_abc_in_two_chunks() {
    let mut h = Sha1Hasher::start();
    h.feed(b"a");
    h.feed(b"bc");
    assert_eq!(h.hex_digest(), "a9993e364706816aba3e25717850c26c9cd0d89d");
}

#[test]
fn sha256_of_abc() {
    let mut h = Sha256Hasher::start();
    h.feed(b"abc");
    assert_eq!(h.hex_digest(), "ba7816bf8f01cfea414140de5dae2223b00361a396177a9cb410ff61f20015ad");
}

#[test]
fn hex_is_lowercase_two_digits_per_byte() {
    assert_eq!(hex_string(&vec![0x00, 0x0f, 0xa0, 0xff]), "000fa0ff");
    assert_eq!(hex_string(&vec![]), "");
}

#[test]
fn expectations_are_trimmed_and_lowercased() {
    let n: String = normalize_digest("  ABCdef \n").iter().collect();
    assert_eq!(n, "abcdef");
    assert!(digest_matches("a9993e364706816aba3e25717850c26c9cd0d89d", " A9993E364706816ABA3E25717850C26C9CD0D89D "));
    assert!(!digest_matches("a9993e364706816aba3e25717850c26c9cd0d89d", "deadbeef"));
}

#[test]
fn blank_expectation_accepts_anything() {
    assert!(digest_matches("0123", ""));
    assert!(digest_matches("0123", "   "));
}
