use crev_core::hashing::{blake2b256sum, Digest};
use crev_core::tree::{cargo_ignore_list, content_digest, path_ignored, TreeEntry};

fn entry(path: &str, content: &[u8]) -> TreeEntry {
    TreeEntry { path: path.as_bytes().to_vec(), content: content.to_vec() }
}

#[test]
fn blake2b256_of_empty_is_known_vector() {
    let h = blake2b256sum(&[]);
    let hex: String = h.iter().map(|b| format!("{:02x}", b)).collect();
    assert_eq!(hex, "0e5751c026e543b2e8ab2eb06099daa1d1e5df47778f7787faab45cdf12fe3a8");
}

#[test]
fn blake2b256_output_is_32_bytes() {
    assert_eq!(blake2b256sum(b"abc").len(), 32);
}

#[test]
fn digest_of_empty_tree_hashes_empty_input() {
    let tree: Vec<TreeEntry> = Vec::new();
    let ignore: Vec<Vec<u8>> = Vec::new();
    let d = content_digest(&tree, &ignore);
    let direct = Digest::of_bytes(&Vec::new());
    assert!(d.eq_digest(&direct));
}

#[test]
fn digest_deterministic_across_traversal_orders() {
    let ignore: Vec<Vec<u8>> = Vec::new();
    let t1 = vec![entry("src/lib.rs", b"fn main() {}"), entry("README.md", b"hi"), entry(
        "a.txt",
        b"alpha",
    )];
    let t2 = vec![entry("a.txt", b"alpha"), entry("src/lib.rs", b"fn main() {}"), entry(
        "README.md",
        b"hi",
    )];
    let d1 = content_digest(&t1, &ignore);
    let d2 = content_digest(&t2, &ignore);
    assert!(d1.eq_digest(&d2));
    assert_eq!(d1.to_hex(), d2.to_hex());
}

#[test]
fn digest_repeated_computation_is_stable() {
    let ignore = cargo_ignore_list();
    let t = vec![entry("src/lib.rs", b"pub fn f() {}")];
    let d1 = content_digest(&t, &ignore);
    let d2 = content_digest(&t, &ignore);
    assert!(d1.eq_digest(&d2));
}

#[test]
fn changing_ignored_file_keeps_digest() {
    let ignore = cargo_ignore_list();
    let t1 = vec![entry("Cargo.lock", b"old lock"), entry("src/lib.rs", b"code")];
    let t2 = vec![entry("Cargo.lock", b"completely different"), entry("src/lib.rs", b"code")];
    let d1 = content_digest(&t1, &ignore);
    let d2 = content_digest(&t2, &ignore);
    assert!(d1.eq_digest(&d2));
}

#[test]
fn changing_included_content_changes_digest() {
    let ignore = cargo_ignore_list();
    let t1 = vec![entry("src/lib.rs", b"code")];
    let t2 = vec![entry("src/lib.rs", b"code!")];
    let d1 = content_digest(&t1, &ignore);
    let d2 = content_digest(&t2, &ignore);
    assert!(!d1.eq_digest(&d2));
}

#[test]
fn changing_included_path_changes_digest() {
    let ignore = cargo_ignore_list();
    let t1 = vec![entry("src/lib.rs", b"code")];
    let t2 = vec![entry("src/main.rs", b"code")];
    assert!(!content_digest(&t1, &ignore).eq_digest(&content_digest(&t2, &ignore)));
}

#[test]
fn framing_keeps_entry_boundaries_apart() {
    // same concatenated bytes, different entry split: the digests differ
    let ignore: Vec<Vec<u8>> = Vec::new();
    let t1 = vec![entry("ab", b"c")];
    let t2 = vec![entry("a", b"bc")];
    assert!(!content_digest(&t1, &ignore).eq_digest(&content_digest(&t2, &ignore)));
}

#[test]
fn cargo_ignore_list_holds_the_three_names() {
    let ignore = cargo_ignore_list();
    assert_eq!(ignore.len(), 3);
    assert_eq!(ignore[0], b".cargo-ok".to_vec());
    assert_eq!(ignore[1], b"Cargo.lock".to_vec());
    assert_eq!(ignore[2], b"target".to_vec());
}

#[test]
fn path_ignored_matches_exactly() {
    let ignore = cargo_ignore_list();
    assert!(path_ignored(&ignore, &b"Cargo.lock".to_vec()));
    assert!(path_ignored(&ignore, &b"target".to_vec()));
    assert!(!path_ignored(&ignore, &b"src/Cargo.lock".to_vec()));
    assert!(!path_ignored(&ignore, &b"targets".to_vec()));
}

#[test]
fn digest_hex_has_64_digits() {
    let d = content_digest(&vec![entry("x", b"y")], &Vec::new());
    let hex = d.to_hex();
    assert_eq!(hex.len(), 64);
    assert!(hex.chars().all(|c| c.is_ascii_hexdigit()));
}
