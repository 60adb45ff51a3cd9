use crev_core::model::{
    ComputationStatus, CrateCounts, DepRow, Level, TrustCount, VerificationRequirements, Version,
};
use crev_core::pipeline::{DepComputer, VerifyStage};
use crev_core::tree::{cargo_ignore_list, TreeEntry};

fn entry(path: &str, content: &[u8]) -> TreeEntry {
    TreeEntry { path: path.as_bytes().to_vec(), content: content.to_vec() }
}

fn sample_tree() -> Vec<TreeEntry> {
    vec![
        entry("Cargo.lock", b"lock artifact"),
        entry("src/lib.rs", b"pub fn sample() {}"),
        entry("target", b"build output"),
    ]
}

fn requirements() -> VerificationRequirements {
    VerificationRequirements { trust_level: Level::Low, redundancy: 1, staleness_days: 0 }
}

fn computer(skip_verified: bool, skip_known_owners: bool, known: Vec<String>) -> DepComputer {
    DepComputer::new(
        None,
        cargo_ignore_list(),
        known,
        requirements(),
        skip_verified,
        skip_known_owners,
    )
}

#[test]
fn full_run_with_empty_trust_set() {
    // name "sample", version 1.0.0, the default ignore-list, no root identity:
    // nothing can verify, nothing is skipped, every stage duration ends positive
    let mut dc = computer(false, false, Vec::new());
    assert_eq!(dc.trust_set.ids.len(), 0);
    let mut row = DepRow::new("sample".to_string(), Version::new(1, 0, 0), false);
    let tree = sample_tree();
    let mut run = dc.start_verify(&mut row, &tree);
    assert!(matches!(row.computation_status, ComputationStatus::InProgress));
    assert_eq!(run.stage, VerifyStage::AwaitPriorDigests);

    dc.prior_digests(&mut run, &Vec::new(), 1);
    assert_eq!(run.stage, VerifyStage::AwaitDigestVerdict);
    assert!(!run.unclean_digest);

    dc.digest_verdict(&mut run, false, 1);
    assert_eq!(run.stage, VerifyStage::AwaitReviewCounts);
    assert!(!run.verified);

    dc.review_counts(&mut run, 2, 5, 1);
    assert_eq!(run.stage, VerifyStage::AwaitDownloadCounts);

    dc.download_counts(&mut run, Some((40, 4000)), 1);
    assert_eq!(run.stage, VerifyStage::AwaitOwners);

    dc.owner_list(&mut run, Some(vec!["somebody".to_string()]), 1);
    assert_eq!(run.stage, VerifyStage::AwaitIssueCounts);

    dc.issue_counts(&mut run, 0, 1, 1);
    assert_eq!(run.stage, VerifyStage::AwaitSizeMetric);

    dc.size_metric(&mut run, Some(120), 1);
    assert_eq!(run.stage, VerifyStage::AwaitLatestTrusted);

    dc.latest_trusted(&mut run, None, 1);
    assert_eq!(run.stage, VerifyStage::Complete);

    dc.compute(&mut row, run);
    match &row.computation_status {
        ComputationStatus::Completed(rec) => {
            assert!(!rec.verified);
            assert!(!rec.unclean_digest);
            assert_eq!(rec.reviews, CrateCounts { version: 2, total: 5 });
            assert_eq!(rec.downloads, Some(CrateCounts { version: 40, total: 4000 }));
            assert_eq!(rec.owners, Some(TrustCount { trusted: 0, total: 1 }));
            assert_eq!(rec.issues, TrustCount { trusted: 0, total: 1 });
            assert_eq!(rec.loc, Some(120));
            assert_eq!(rec.latest_trusted_version, None);
            assert_eq!(rec.name, "sample");
            assert_eq!(rec.version, Version::new(1, 0, 0));
        }
        other => panic!("expected a completed record, got {:?}", other),
    }
    assert!(dc.durations.digest > 0);
    assert!(dc.durations.issues > 0);
    assert!(dc.durations.loc > 0);
    assert!(dc.durations.latest_trusted > 0);
    assert!(dc.durations.total > 0);
}

#[test]
fn skip_verified_ends_run_before_later_stages() {
    let mut dc = computer(true, false, Vec::new());
    let mut row = DepRow::new("sample".to_string(), Version::new(1, 0, 0), false);
    let tree = sample_tree();
    let mut run = dc.start_verify(&mut row, &tree);
    dc.prior_digests(&mut run, &Vec::new(), 1);
    dc.digest_verdict(&mut run, true, 1);
    assert_eq!(run.stage, VerifyStage::Skipped);
    dc.compute(&mut row, run);
    assert!(matches!(row.computation_status, ComputationStatus::Skipped));
    assert!(dc.durations.total > 0);
}

#[test]
fn verified_without_flag_continues() {
    let mut dc = computer(false, false, Vec::new());
    let mut row = DepRow::new("sample".to_string(), Version::new(1, 0, 0), false);
    let tree = sample_tree();
    let mut run = dc.start_verify(&mut row, &tree);
    dc.prior_digests(&mut run, &Vec::new(), 1);
    dc.digest_verdict(&mut run, true, 1);
    assert_eq!(run.stage, VerifyStage::AwaitReviewCounts);
    assert!(run.verified);
}

#[test]
fn unverified_with_flag_continues() {
    let mut dc = computer(true, false, Vec::new());
    let mut row = DepRow::new("sample".to_string(), Version::new(1, 0, 0), false);
    let tree = sample_tree();
    let mut run = dc.start_verify(&mut row, &tree);
    dc.prior_digests(&mut run, &Vec::new(), 1);
    dc.digest_verdict(&mut run, false, 1);
    assert_eq!(run.stage, VerifyStage::AwaitReviewCounts);
}

#[test]
fn skip_known_owners_exactly_when_intersection_nonempty_and_flag_set() {
    // flag set, one listed owner known: skipped
    let mut dc = computer(false, true, vec!["known_owner".to_string()]);
    let mut row = DepRow::new("sample".to_string(), Version::new(1, 0, 0), false);
    let tree = sample_tree();
    let mut run = dc.start_verify(&mut row, &tree);
    dc.prior_digests(&mut run, &Vec::new(), 1);
    dc.digest_verdict(&mut run, false, 1);
    dc.review_counts(&mut run, 0, 0, 1);
    dc.download_counts(&mut run, None, 1);
    dc.owner_list(
        &mut run,
        Some(vec!["stranger".to_string(), "known_owner".to_string()]),
        1,
    );
    assert_eq!(run.stage, VerifyStage::Skipped);
    dc.compute(&mut row, run);
    assert!(matches!(row.computation_status, ComputationStatus::Skipped));

    // flag set, no listed owner known: not skipped
    let mut dc2 = computer(false, true, vec!["known_owner".to_string()]);
    let mut row2 = DepRow::new("sample".to_string(), Version::new(1, 0, 0), false);
    let mut run2 = dc2.start_verify(&mut row2, &tree);
    dc2.prior_digests(&mut run2, &Vec::new(), 1);
    dc2.digest_verdict(&mut run2, false, 1);
    dc2.review_counts(&mut run2, 0, 0, 1);
    dc2.download_counts(&mut run2, None, 1);
    dc2.owner_list(&mut run2, Some(vec!["stranger".to_string()]), 1);
    assert_eq!(run2.stage, VerifyStage::AwaitIssueCounts);
    assert_eq!(run2.owners, Some(TrustCount { trusted: 0, total: 1 }));

    // known owner listed but flag unset: not skipped, counted
    let mut dc3 = computer(false, false, vec!["known_owner".to_string()]);
    let mut row3 = DepRow::new("sample".to_string(), Version::new(1, 0, 0), false);
    let mut run3 = dc3.start_verify(&mut row3, &tree);
    dc3.prior_digests(&mut run3, &Vec::new(), 1);
    dc3.digest_verdict(&mut run3, false, 1);
    dc3.review_counts(&mut run3, 0, 0, 1);
    dc3.download_counts(&mut run3, None, 1);
    dc3.owner_list(
        &mut run3,
        Some(vec!["known_owner".to_string(), "stranger".to_string()]),
        1,
    );
    assert_eq!(run3.stage, VerifyStage::AwaitIssueCounts);
    assert_eq!(run3.owners, Some(TrustCount { trusted: 1, total: 2 }));
}

#[test]
fn owner_lookup_failure_is_recoverable() {
    let mut dc = computer(false, true, vec!["known_owner".to_string()]);
    let mut row = DepRow::new("sample".to_string(), Version::new(1, 0, 0), false);
    let tree = sample_tree();
    let mut run = dc.start_verify(&mut row, &tree);
    dc.prior_digests(&mut run, &Vec::new(), 1);
    dc.digest_verdict(&mut run, false, 1);
    dc.review_counts(&mut run, 0, 0, 1);
    dc.download_counts(&mut run, None, 1);
    dc.owner_list(&mut run, None, 1);
    assert_eq!(run.stage, VerifyStage::AwaitIssueCounts);
    assert_eq!(run.owners, None);
}

#[test]
fn inconsistent_review_counts_fail_the_run() {
    let mut dc = computer(false, false, Vec::new());
    let mut row = DepRow::new("sample".to_string(), Version::new(1, 0, 0), false);
    let tree = sample_tree();
    let mut run = dc.start_verify(&mut row, &tree);
    dc.prior_digests(&mut run, &Vec::new(), 1);
    dc.digest_verdict(&mut run, false, 1);
    dc.review_counts(&mut run, 6, 5, 1);
    assert_eq!(run.stage, VerifyStage::Failed);
    assert_eq!(run.failure, Some(crev_core::model::CoreError::Collaborator));
    dc.compute(&mut row, run);
    assert!(matches!(row.computation_status, ComputationStatus::Failed));
}

#[test]
fn inconsistent_issue_counts_fail_the_run() {
    let mut dc = computer(false, false, Vec::new());
    let mut row = DepRow::new("sample".to_string(), Version::new(1, 0, 0), false);
    let tree = sample_tree();
    let mut run = dc.start_verify(&mut row, &tree);
    dc.prior_digests(&mut run, &Vec::new(), 1);
    dc.digest_verdict(&mut run, false, 1);
    dc.review_counts(&mut run, 0, 0, 1);
    dc.download_counts(&mut run, None, 1);
    dc.owner_list(&mut run, None, 1);
    dc.issue_counts(&mut run, 3, 1, 1);
    assert_eq!(run.stage, VerifyStage::Failed);
}

#[test]
fn inconsistent_download_counts_left_absent() {
    let mut dc = computer(false, false, Vec::new());
    let mut row = DepRow::new("sample".to_string(), Version::new(1, 0, 0), false);
    let tree = sample_tree();
    let mut run = dc.start_verify(&mut row, &tree);
    dc.prior_digests(&mut run, &Vec::new(), 1);
    dc.digest_verdict(&mut run, false, 1);
    dc.review_counts(&mut run, 0, 0, 1);
    dc.download_counts(&mut run, Some((5, 2)), 1);
    assert_eq!(run.stage, VerifyStage::AwaitOwners);
    assert_eq!(run.downloads, None);
}

#[test]
fn trust_levels_rank_in_order() {
    assert!(Level::NoTrust.rank() < Level::Low.rank());
    assert!(Level::Low.rank() < Level::Medium.rank());
    assert!(Level::Medium.rank() < Level::High.rank());
}

#[test]
fn durations_start_at_zero() {
    let d = crev_core::durations::Durations::default();
    assert_eq!(d, crev_core::durations::Durations::new());
    assert_eq!(d.digest, 0);
    assert_eq!(d.total, 0);
}

#[test]
fn count_constructors_enforce_invariants() {
    assert!(CrateCounts::new(2, 5).is_some());
    assert!(CrateCounts::new(5, 5).is_some());
    assert!(CrateCounts::new(6, 5).is_none());
    assert!(TrustCount::new(0, 0).is_some());
    assert!(TrustCount::new(3, 1).is_none());
}

#[test]
fn prior_review_with_other_digest_marks_unclean() {
    let mut dc = computer(false, false, Vec::new());
    let mut row = DepRow::new("sample".to_string(), Version::new(1, 0, 0), false);
    let tree = sample_tree();
    let mut run = dc.start_verify(&mut row, &tree);
    // a prior accepted review carrying a different digest
    let other = crev_core::hashing::Digest::of_bytes(&b"something else".to_vec());
    dc.prior_digests(&mut run, &vec![other], 1);
    assert!(run.unclean_digest);

    // a prior review with the same digest is clean
    let mut dc2 = computer(false, false, Vec::new());
    let mut row2 = DepRow::new("sample".to_string(), Version::new(1, 0, 0), false);
    let mut run2 = dc2.start_verify(&mut row2, &tree);
    let same = crev_core::tree::content_digest(&tree, &cargo_ignore_list());
    dc2.prior_digests(&mut run2, &vec![same], 1);
    assert!(!run2.unclean_digest);
}
