use crev_core::capture::{begin_capture, CaptureState};
use crev_core::model::{CoreError, Version};
use crev_core::tree::{cargo_ignore_list, content_digest, TreeEntry};

fn entry(path: &str, content: &[u8]) -> TreeEntry {
    TreeEntry { path: path.as_bytes().to_vec(), content: content.to_vec() }
}

fn tree_a() -> Vec<TreeEntry> {
    vec![entry("src/lib.rs", b"pub fn a() {}"), entry("Cargo.lock", b"lock")]
}

#[test]
fn capture_inside_working_tree_is_a_policy_error() {
    // the target resolves under the caller's own working directory
    let r = begin_capture(
        "sample".to_string(),
        Version::new(1, 0, 0),
        b"/work/checkout/dep".to_vec(),
        &b"/work/checkout".to_vec(),
    );
    assert_eq!(r.err(), Some(CoreError::Policy));
}

#[test]
fn capture_of_working_tree_itself_is_a_policy_error() {
    let r = begin_capture(
        "sample".to_string(),
        Version::new(1, 0, 0),
        b"/work/checkout".to_vec(),
        &b"/work/checkout".to_vec(),
    );
    assert_eq!(r.err(), Some(CoreError::Policy));
}

#[test]
fn capture_outside_working_tree_opens_pristine() {
    let r = begin_capture(
        "sample".to_string(),
        Version::new(1, 0, 0),
        b"/registry/cache/sample-1.0.0".to_vec(),
        &b"/work/checkout".to_vec(),
    );
    let s = r.expect("capture should open");
    assert_eq!(s.state, CaptureState::Pristine);
    assert_eq!(s.name, "sample");
}

#[test]
fn sibling_path_with_common_prefix_is_not_inside() {
    // "/work/checkout-other" is a sibling, not inside "/work/checkout"
    let r = begin_capture(
        "sample".to_string(),
        Version::new(1, 0, 0),
        b"/work/checkout-other".to_vec(),
        &b"/work/checkout".to_vec(),
    );
    assert!(r.is_ok());
}

#[test]
fn matching_trees_verify_and_return_the_fresh_digest() {
    let mut s = begin_capture(
        "sample".to_string(),
        Version::new(1, 0, 0),
        b"/registry/cache/sample-1.0.0".to_vec(),
        &b"/work/checkout".to_vec(),
    )
    .unwrap();
    s.mark_quarantined();
    assert_eq!(s.state, CaptureState::Quarantined);
    let ignore = cargo_ignore_list();
    let fresh = tree_a();
    let quarantined = tree_a();
    let r = s.complete(
        &"sample".to_string(),
        &Version::new(1, 0, 0),
        &fresh,
        &quarantined,
        &ignore,
    );
    let d = r.expect("digests agree");
    assert_eq!(s.state, CaptureState::Verified);
    assert!(d.eq_digest(&content_digest(&fresh, &ignore)));
}

#[test]
fn differing_trees_mismatch_and_fail_with_digest_error() {
    let mut s = begin_capture(
        "sample".to_string(),
        Version::new(1, 0, 0),
        b"/registry/cache/sample-1.0.0".to_vec(),
        &b"/work/checkout".to_vec(),
    )
    .unwrap();
    s.mark_quarantined();
    let ignore = cargo_ignore_list();
    let fresh = tree_a();
    let mut tampered = tree_a();
    tampered[0].content = b"pub fn a() { tampered() }".to_vec();
    let r = s.complete(
        &"sample".to_string(),
        &Version::new(1, 0, 0),
        &fresh,
        &tampered,
        &ignore,
    );
    assert_eq!(r.err(), Some(CoreError::Digest));
    assert_eq!(s.state, CaptureState::Mismatch);
}

#[test]
fn trees_differing_only_in_ignored_files_still_verify() {
    let mut s = begin_capture(
        "sample".to_string(),
        Version::new(1, 0, 0),
        b"/registry/cache/sample-1.0.0".to_vec(),
        &b"/work/checkout".to_vec(),
    )
    .unwrap();
    s.mark_quarantined();
    let ignore = cargo_ignore_list();
    let fresh = tree_a();
    let mut rebuilt = tree_a();
    rebuilt[1].content = b"regenerated lock".to_vec();
    let r = s.complete(
        &"sample".to_string(),
        &Version::new(1, 0, 0),
        &fresh,
        &rebuilt,
        &ignore,
    );
    assert!(r.is_ok());
    assert_eq!(s.state, CaptureState::Verified);
}

#[test]
fn resolver_identity_mismatch_is_fatal_not_tamper() {
    let mut s = begin_capture(
        "sample".to_string(),
        Version::new(1, 0, 0),
        b"/registry/cache/sample-1.0.0".to_vec(),
        &b"/work/checkout".to_vec(),
    )
    .unwrap();
    s.mark_quarantined();
    let ignore = cargo_ignore_list();
    let fresh = tree_a();
    let quarantined = tree_a();
    let r = s.complete(
        &"sample".to_string(),
        &Version::new(1, 0, 1),
        &fresh,
        &quarantined,
        &ignore,
    );
    assert_eq!(r.err(), Some(CoreError::Collaborator));
    assert_eq!(s.state, CaptureState::Quarantined);
}
