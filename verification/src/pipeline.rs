//! The per-dependency verification pipeline.
//!
//! One `DepComputer` is built per batch run. For each dependency the driver
//! starts a run, then feeds it collaborator results stage by stage: prior
//! review digests, the digest verdict, review counts, download counts, the
//! owner list, issue counts, the size metric and the latest trusted version.
//! The pipeline decides everything else: the skip policies, the count
//! invariants, the record. A run that a skip policy ends never reaches the
//! later stages: every stage requires the run to be exactly at it.
//!
//! Elapsed nanoseconds for each collaborator call are handed in with its
//! result and accumulated in `Durations`.

use crate::durations::sat64;
use crate::durations::sat_add;
use crate::durations::Durations;
use crate::hashing::Digest;
use crate::model::ComputationStatus;
use crate::model::CoreError;
use crate::model::CrateCounts;
use crate::model::DepRow;
use crate::model::TrustCount;
use crate::model::TrustSet;
use crate::model::VerificationRecord;
use crate::model::VerificationRequirements;
use crate::model::Version;
use crate::tree::content_digest;
use crate::tree::entries_view;
use crate::tree::ignore_view;
use crate::tree::tree_digest;
use crate::tree::TreeEntry;
use vstd::prelude::*;

verus! {

/// Where a run stands: which collaborator result it awaits, or how it ended.
#[derive(Clone, Copy, PartialEq, Eq, Structural, Debug)]
pub enum VerifyStage {
    AwaitPriorDigests,
    AwaitDigestVerdict,
    AwaitReviewCounts,
    AwaitDownloadCounts,
    AwaitOwners,
    AwaitIssueCounts,
    AwaitSizeMetric,
    AwaitLatestTrusted,
    /// Every stage ran; a record can be taken.
    Complete,
    /// A skip policy ended the run early.
    Skipped,
    /// Inconsistent collaborator data ended the run.
    Failed,
}

/// The state of one dependency's pipeline run.
pub struct VerifyRun {
    pub name: String,
    pub version: Version,
    pub has_custom_build: bool,
    pub digest: Digest,
    pub stage: VerifyStage,
    pub unclean_digest: bool,
    pub verified: bool,
    pub reviews: CrateCounts,
    pub downloads: Option<CrateCounts>,
    pub owners: Option<TrustCount>,
    pub issues: TrustCount,
    pub loc: Option<u64>,
    pub latest_trusted_version: Option<Version>,
    pub failure: Option<CoreError>,
    pub elapsed_total: u64,
}

impl VerifyRun {
    /// Every count held by a run satisfies its invariant.
    pub open spec fn wf(&self) -> bool {
        &&& self.digest.wf()
        &&& self.reviews.wf()
        &&& self.issues.wf()
        &&& (self.downloads matches Some(d) ==> d.wf())
        &&& (self.owners matches Some(o) ==> o.wf())
    }
}

/// The record a completed run assembles.
pub open spec fn record_of(run: VerifyRun) -> VerificationRecord {
    VerificationRecord {
        digest: run.digest,
        name: run.name,
        version: run.version,
        latest_trusted_version: run.latest_trusted_version,
        reviews: run.reviews,
        downloads: run.downloads,
        owners: run.owners,
        issues: run.issues,
        loc: run.loc,
        has_custom_build: run.has_custom_build,
        unclean_digest: run.unclean_digest,
        verified: run.verified,
    }
}

/// Whether an identity occurs in a list of identities, by content.
pub open spec fn id_in(known: Seq<String>, o: String) -> bool {
    exists|j: int| 0 <= j < known.len() && known[j]@ == o@
}

/// How many of the listed owners are known, counted one owner at a time.
pub open spec fn count_known(known: Seq<String>, owners: Seq<String>) -> int
    decreases owners.len(),
{
    if owners.len() == 0 {
        0
    } else {
        count_known(known, owners.drop_last()) + if id_in(known, owners.last()) {
            1int
        } else {
            0int
        }
    }
}

pub proof fn lemma_count_known_bounds(known: Seq<String>, owners: Seq<String>)
    ensures
        0 <= count_known(known, owners) <= owners.len(),
    decreases owners.len(),
{
    if owners.len() > 0 {
        lemma_count_known_bounds(known, owners.drop_last());
    }
}

fn is_known(known: &Vec<String>, o: &String) -> (r: bool)
    ensures
        r == id_in(known@, *o),
{
    let mut j: usize = 0;
    while j < known.len()
        invariant
            j <= known@.len(),
            forall|k: int| 0 <= k < j ==> known@[k]@ != o@,
        decreases known@.len() - j,
    {
        if known[j].eq(o) {
            proof {
                assert(known@[j as int]@ == o@);
            }
            return true;
        }
        j = j + 1;
    }
    false
}

/// Runs the verification pipeline for a batch: policy flags, the trust set,
/// the ignore-list and the known owners, fixed for the whole run.
pub struct DepComputer {
    pub trust_set: TrustSet,
    pub ignore_list: Vec<Vec<u8>>,
    pub known_owners: Vec<String>,
    pub requirements: VerificationRequirements,
    pub skip_verified: bool,
    pub skip_known_owners: bool,
    pub durations: Durations,
}

impl DepComputer {
    /// Builds the pipeline for one run. The trust set comes from the
    /// trust-graph collaborator where a root identity was given; with no
    /// root identity nobody is trusted.
    pub fn new(
        trust_set: Option<TrustSet>,
        ignore_list: Vec<Vec<u8>>,
        known_owners: Vec<String>,
        requirements: VerificationRequirements,
        skip_verified: bool,
        skip_known_owners: bool,
    ) -> (r: DepComputer)
        ensures
            trust_set matches Some(t) ==> r.trust_set == t,
            trust_set is None ==> r.trust_set.ids@.len() == 0,
            r.ignore_list == ignore_list,
            r.known_owners == known_owners,
            r.requirements == requirements,
            r.skip_verified == skip_verified,
            r.skip_known_owners == skip_known_owners,
            r.durations == (Durations {
                digest: 0u64,
                loc: 0u64,
                latest_trusted: 0u64,
                issues: 0u64,
                total: 0u64,
            }),
    {
        let ts = match trust_set {
            Some(t) => t,
            None => TrustSet::empty(),
        };
        DepComputer {
            trust_set: ts,
            ignore_list,
            known_owners,
            requirements,
            skip_verified,
            skip_known_owners,
            durations: Durations::new(),
        }
    }

    /// Starts one dependency's run: marks the row in progress and computes
    /// the content digest of its extracted tree under the run's ignore-list.
    pub fn start_verify(&self, row: &mut DepRow, tree: &Vec<TreeEntry>) -> (run: VerifyRun)
        ensures
            *final(row) == (DepRow {
                computation_status: ComputationStatus::InProgress,
                ..*old(row)
            }),
            run.name == old(row).name,
            run.version == old(row).version,
            run.has_custom_build == old(row).has_custom_build,
            run.digest@ == tree_digest(entries_view(tree@), ignore_view(self.ignore_list@)),
            run.stage is AwaitPriorDigests,
            !run.unclean_digest,
            !run.verified,
            run.reviews == (CrateCounts { version: 0u64, total: 0u64 }),
            run.downloads is None,
            run.owners is None,
            run.issues == (TrustCount { trusted: 0u64, total: 0u64 }),
            run.loc is None,
            run.latest_trusted_version is None,
            run.failure is None,
            run.elapsed_total == 0,
            run.wf(),
    {
        row.computation_status = ComputationStatus::InProgress;
        let digest = content_digest(tree, &self.ignore_list);
        VerifyRun {
            name: row.name.clone(),
            version: row.version,
            has_custom_build: row.has_custom_build,
            digest,
            stage: VerifyStage::AwaitPriorDigests,
            unclean_digest: false,
            verified: false,
            reviews: CrateCounts { version: 0, total: 0 },
            downloads: None,
            owners: None,
            issues: TrustCount { trusted: 0, total: 0 },
            loc: None,
            latest_trusted_version: None,
            failure: None,
            elapsed_total: 0,
        }
    }

    /// Hands the run the digests of prior accepted reviews for this (name,
    /// version). The digest is unclean when some accepted review carries a
    /// different digest than the freshly computed one.
    pub fn prior_digests(&mut self, run: &mut VerifyRun, priors: &Vec<Digest>, elapsed: u64)
        requires
            old(run).stage is AwaitPriorDigests,
        ensures
            *final(run) == (VerifyRun {
                stage: VerifyStage::AwaitDigestVerdict,
                unclean_digest: exists|i: int|
                    0 <= i < priors@.len() && (#[trigger] priors@[i])@ != old(run).digest@,
                elapsed_total: sat64(old(run).elapsed_total as int, elapsed as int),
                ..*old(run)
            }),
            *final(self) == (DepComputer {
                durations: Durations {
                    digest: sat64(old(self).durations.digest as int, elapsed as int),
                    ..old(self).durations
                },
                ..*old(self)
            }),
    {
        let mut unclean = false;
        let mut i: usize = 0;
        while i < priors.len()
            invariant
                i <= priors@.len(),
                unclean == exists|k: int|
                    0 <= k < i && (#[trigger] priors@[k])@ != run.digest@,
                run == old(run),
            decreases priors@.len() - i,
        {
            if !priors[i].eq_digest(&run.digest) {
                proof {
                    assert((priors@[i as int])@ != run.digest@);
                }
                unclean = true;
            }
            i = i + 1;
        }
        run.unclean_digest = unclean;
        run.stage = VerifyStage::AwaitDigestVerdict;
        run.elapsed_total = sat_add(run.elapsed_total, elapsed);
        self.durations.digest = sat_add(self.durations.digest, elapsed);
    }

    /// Hands the run the proof database's verdict on the digest. When the
    /// verdict is positive and the skip-verified policy is set, the run is
    /// skipped — if and only if — and no later stage ever sees it.
    pub fn digest_verdict(&mut self, run: &mut VerifyRun, verified: bool, elapsed: u64)
        requires
            old(run).stage is AwaitDigestVerdict,
        ensures
            final(run).stage is Skipped <==> (verified && old(self).skip_verified),
            verified && old(self).skip_verified ==> *final(run) == (VerifyRun {
                stage: VerifyStage::Skipped,
                verified: true,
                elapsed_total: sat64(old(run).elapsed_total as int, elapsed as int),
                ..*old(run)
            }) && *final(self) == (DepComputer {
                durations: Durations {
                    digest: sat64(old(self).durations.digest as int, elapsed as int),
                    total: sat64(
                        old(self).durations.total as int,
                        sat64(old(run).elapsed_total as int, elapsed as int) as int,
                    ),
                    ..old(self).durations
                },
                ..*old(self)
            }),
            !(verified && old(self).skip_verified) ==> *final(run) == (VerifyRun {
                stage: VerifyStage::AwaitReviewCounts,
                verified: verified,
                elapsed_total: sat64(old(run).elapsed_total as int, elapsed as int),
                ..*old(run)
            }) && *final(self) == (DepComputer {
                durations: Durations {
                    digest: sat64(old(self).durations.digest as int, elapsed as int),
                    ..old(self).durations
                },
                ..*old(self)
            }),
    {
        run.verified = verified;
        run.elapsed_total = sat_add(run.elapsed_total, elapsed);
        self.durations.digest = sat_add(self.durations.digest, elapsed);
        if verified && self.skip_verified {
            run.stage = VerifyStage::Skipped;
            self.durations.total = sat_add(self.durations.total, run.elapsed_total);
        } else {
            run.stage = VerifyStage::AwaitReviewCounts;
        }
    }

    /// Hands the run the review counts for this exact version and for the
    /// package overall. A one-version count above the overall count is a
    /// data-integrity fault in the proof store and fails the run.
    pub fn review_counts(
        &mut self,
        run: &mut VerifyRun,
        version_reviews: u64,
        total_reviews: u64,
        elapsed: u64,
    )
        requires
            old(run).stage is AwaitReviewCounts,
        ensures
            version_reviews <= total_reviews ==> *final(run) == (VerifyRun {
                stage: VerifyStage::AwaitDownloadCounts,
                reviews: CrateCounts { version: version_reviews, total: total_reviews },
                elapsed_total: sat64(old(run).elapsed_total as int, elapsed as int),
                ..*old(run)
            }) && *final(self) == *old(self),
            version_reviews > total_reviews ==> *final(run) == (VerifyRun {
                stage: VerifyStage::Failed,
                failure: Some(CoreError::Collaborator),
                elapsed_total: sat64(old(run).elapsed_total as int, elapsed as int),
                ..*old(run)
            }) && *final(self) == (DepComputer {
                durations: Durations {
                    total: sat64(
                        old(self).durations.total as int,
                        sat64(old(run).elapsed_total as int, elapsed as int) as int,
                    ),
                    ..old(self).durations
                },
                ..*old(self)
            }),
            old(run).wf() ==> final(run).wf(),
    {
        run.elapsed_total = sat_add(run.elapsed_total, elapsed);
        match CrateCounts::new(version_reviews, total_reviews) {
            Some(counts) => {
                run.reviews = counts;
                run.stage = VerifyStage::AwaitDownloadCounts;
            },
            None => {
                run.stage = VerifyStage::Failed;
                run.failure = Some(CoreError::Collaborator);
                self.durations.total = sat_add(self.durations.total, run.elapsed_total);
            },
        }
    }

    /// Hands the run the registry's download counts, or nothing where that
    /// lookup failed — a recoverable condition: the field stays absent and
    /// the run continues. An inconsistent pair is treated as a failed
    /// lookup, never stored.
    pub fn download_counts(
        &mut self,
        run: &mut VerifyRun,
        counts: Option<(u64, u64)>,
        elapsed: u64,
    )
        requires
            old(run).stage is AwaitDownloadCounts,
        ensures
            *final(self) == *old(self),
            final(run).stage is AwaitOwners,
            counts is Some && (counts->0).0 <= (counts->0).1 ==> *final(run) == (VerifyRun {
                stage: VerifyStage::AwaitOwners,
                downloads: Some(CrateCounts { version: (counts->0).0, total: (counts->0).1 }),
                elapsed_total: sat64(old(run).elapsed_total as int, elapsed as int),
                ..*old(run)
            }),
            (counts is None || (counts is Some && (counts->0).0 > (counts->0).1)) ==> *final(run) == (VerifyRun {
                stage: VerifyStage::AwaitOwners,
                downloads: None,
                elapsed_total: sat64(old(run).elapsed_total as int, elapsed as int),
                ..*old(run)
            }),
            old(run).wf() ==> final(run).wf(),
    {
        run.elapsed_total = sat_add(run.elapsed_total, elapsed);
        run.stage = VerifyStage::AwaitOwners;
        match counts {
            Some((version_dl, total_dl)) => {
                match CrateCounts::new(version_dl, total_dl) {
                    Some(c) => {
                        run.downloads = Some(c);
                    },
                    None => {
                        run.downloads = None;
                    },
                }
            },
            None => {
                run.downloads = None;
            },
        }
    }

    /// Hands the run the registry's owner list, or nothing where that lookup
    /// failed (recoverable: the field stays absent). With a list present,
    /// the run is skipped if and only if some listed owner is known and the
    /// skip-known-owners policy is set.
    pub fn owner_list(&mut self, run: &mut VerifyRun, owners: Option<Vec<String>>, elapsed: u64)
        requires
            old(run).stage is AwaitOwners,
        ensures
            final(run).stage is Skipped <==> (owners is Some && count_known(
                old(self).known_owners@,
                (owners->0)@,
            ) > 0 && old(self).skip_known_owners),
            owners is None ==> *final(run) == (VerifyRun {
                stage: VerifyStage::AwaitIssueCounts,
                owners: None,
                elapsed_total: sat64(old(run).elapsed_total as int, elapsed as int),
                ..*old(run)
            }) && *final(self) == *old(self),
            owners is Some && count_known(old(self).known_owners@, (owners->0)@) > 0 && old(
                self,
            ).skip_known_owners ==> *final(run) == (VerifyRun {
                stage: VerifyStage::Skipped,
                elapsed_total: sat64(old(run).elapsed_total as int, elapsed as int),
                ..*old(run)
            }) && *final(self) == (DepComputer {
                durations: Durations {
                    total: sat64(
                        old(self).durations.total as int,
                        sat64(old(run).elapsed_total as int, elapsed as int) as int,
                    ),
                    ..old(self).durations
                },
                ..*old(self)
            }),
            owners is Some && !(count_known(old(self).known_owners@, (owners->0)@) > 0 && old(
                self,
            ).skip_known_owners) ==> *final(run) == (VerifyRun {
                stage: VerifyStage::AwaitIssueCounts,
                owners: Some(TrustCount {
                    trusted: count_known(old(self).known_owners@, (owners->0)@) as u64,
                    total: (owners->0)@.len() as u64,
                }),
                elapsed_total: sat64(old(run).elapsed_total as int, elapsed as int),
                ..*old(run)
            }) && *final(self) == *old(self),
            old(run).wf() ==> final(run).wf(),
    {
        run.elapsed_total = sat_add(run.elapsed_total, elapsed);
        match owners {
            None => {
                run.owners = None;
                run.stage = VerifyStage::AwaitIssueCounts;
            },
            Some(list) => {
                let ghost known = self.known_owners@;
                let mut trusted: usize = 0;
                let mut i: usize = 0;
                proof {
                    assert(list@.subrange(0, 0) =~= Seq::<String>::empty());
                }
                while i < list.len()
                    invariant
                        i <= list@.len(),
                        trusted <= i,
                        known == self.known_owners@,
                        trusted as int == count_known(known, list@.subrange(0, i as int)),
                    decreases list@.len() - i,
                {
                    let hit = is_known(&self.known_owners, &list[i]);
                    proof {
                        let pre = list@.subrange(0, i as int + 1);
                        assert(pre.drop_last() =~= list@.subrange(0, i as int));
                        assert(pre.last() == list@[i as int]);
                    }
                    if hit {
                        trusted = trusted + 1;
                    }
                    i = i + 1;
                }
                proof {
                    assert(list@.subrange(0, list@.len() as int) =~= list@);
                    lemma_count_known_bounds(known, list@);
                }
                if trusted > 0 && self.skip_known_owners {
                    run.stage = VerifyStage::Skipped;
                    self.durations.total = sat_add(self.durations.total, run.elapsed_total);
                } else {
                    run.owners = Some(
                        TrustCount { trusted: trusted as u64, total: list.len() as u64 },
                    );
                    run.stage = VerifyStage::AwaitIssueCounts;
                }
            },
        }
    }

    /// Hands the run the open-issue counts: issues reported from within the
    /// trust set at the policy's minimum level, and issues reported by
    /// anyone. More trusted reports than reports at all is a data-integrity
    /// fault and fails the run.
    pub fn issue_counts(
        &mut self,
        run: &mut VerifyRun,
        trusted_issues: u64,
        total_issues: u64,
        elapsed: u64,
    )
        requires
            old(run).stage is AwaitIssueCounts,
        ensures
            trusted_issues <= total_issues ==> *final(run) == (VerifyRun {
                stage: VerifyStage::AwaitSizeMetric,
                issues: TrustCount { trusted: trusted_issues, total: total_issues },
                elapsed_total: sat64(old(run).elapsed_total as int, elapsed as int),
                ..*old(run)
            }) && *final(self) == (DepComputer {
                durations: Durations {
                    issues: sat64(old(self).durations.issues as int, elapsed as int),
                    ..old(self).durations
                },
                ..*old(self)
            }),
            trusted_issues > total_issues ==> *final(run) == (VerifyRun {
                stage: VerifyStage::Failed,
                failure: Some(CoreError::Collaborator),
                elapsed_total: sat64(old(run).elapsed_total as int, elapsed as int),
                ..*old(run)
            }) && *final(self) == (DepComputer {
                durations: Durations {
                    issues: sat64(old(self).durations.issues as int, elapsed as int),
                    total: sat64(
                        old(self).durations.total as int,
                        sat64(old(run).elapsed_total as int, elapsed as int) as int,
                    ),
                    ..old(self).durations
                },
                ..*old(self)
            }),
            old(run).wf() ==> final(run).wf(),
    {
        run.elapsed_total = sat_add(run.elapsed_total, elapsed);
        self.durations.issues = sat_add(self.durations.issues, elapsed);
        match TrustCount::new(trusted_issues, total_issues) {
            Some(counts) => {
                run.issues = counts;
                run.stage = VerifyStage::AwaitSizeMetric;
            },
            None => {
                run.stage = VerifyStage::Failed;
                run.failure = Some(CoreError::Collaborator);
                self.durations.total = sat_add(self.durations.total, run.elapsed_total);
            },
        }
    }

    /// Hands the run the size-of-source metric, or nothing where computing
    /// it failed (recoverable: the field stays absent).
    pub fn size_metric(&mut self, run: &mut VerifyRun, loc: Option<u64>, elapsed: u64)
        requires
            old(run).stage is AwaitSizeMetric,
        ensures
            *final(run) == (VerifyRun {
                stage: VerifyStage::AwaitLatestTrusted,
                loc: loc,
                elapsed_total: sat64(old(run).elapsed_total as int, elapsed as int),
                ..*old(run)
            }),
            *final(self) == (DepComputer {
                durations: Durations {
                    loc: sat64(old(self).durations.loc as int, elapsed as int),
                    ..old(self).durations
                },
                ..*old(self)
            }),
            old(run).wf() ==> final(run).wf(),
    {
        run.loc = loc;
        run.stage = VerifyStage::AwaitLatestTrusted;
        run.elapsed_total = sat_add(run.elapsed_total, elapsed);
        self.durations.loc = sat_add(self.durations.loc, elapsed);
    }

    /// Hands the run the latest version of this package that satisfies the
    /// policy under the run's trust set, if any, and completes the run.
    pub fn latest_trusted(&mut self, run: &mut VerifyRun, latest: Option<Version>, elapsed: u64)
        requires
            old(run).stage is AwaitLatestTrusted,
        ensures
            *final(run) == (VerifyRun {
                stage: VerifyStage::Complete,
                latest_trusted_version: latest,
                elapsed_total: sat64(old(run).elapsed_total as int, elapsed as int),
                ..*old(run)
            }),
            *final(self) == (DepComputer {
                durations: Durations {
                    latest_trusted: sat64(old(self).durations.latest_trusted as int, elapsed as int),
                    total: sat64(
                        old(self).durations.total as int,
                        sat64(old(run).elapsed_total as int, elapsed as int) as int,
                    ),
                    ..old(self).durations
                },
                ..*old(self)
            }),
            old(run).wf() ==> final(run).wf(),
    {
        run.latest_trusted_version = latest;
        run.stage = VerifyStage::Complete;
        run.elapsed_total = sat_add(run.elapsed_total, elapsed);
        self.durations.latest_trusted = sat_add(self.durations.latest_trusted, elapsed);
        self.durations.total = sat_add(self.durations.total, run.elapsed_total);
    }

    /// Records a finished run in its row: a completed run yields its record,
    /// a skipped run the skipped status, a failed run the failed status.
    pub fn compute(&self, row: &mut DepRow, run: VerifyRun)
        requires
            run.stage is Complete || run.stage is Skipped || run.stage is Failed,
        ensures
            run.stage is Complete ==> *final(row) == (DepRow {
                computation_status: ComputationStatus::Completed(record_of(run)),
                ..*old(row)
            }),
            run.stage is Skipped ==> *final(row) == (DepRow {
                computation_status: ComputationStatus::Skipped,
                ..*old(row)
            }),
            run.stage is Failed ==> *final(row) == (DepRow {
                computation_status: ComputationStatus::Failed,
                ..*old(row)
            }),
            run.stage is Complete && run.wf() ==> (final(row).computation_status matches
                ComputationStatus::Completed(rec) && rec.wf()),
    {
        match run.stage {
            VerifyStage::Complete => {
                row.computation_status = ComputationStatus::Completed(
                    VerificationRecord {
                        digest: run.digest,
                        name: run.name,
                        version: run.version,
                        latest_trusted_version: run.latest_trusted_version,
                        reviews: run.reviews,
                        downloads: run.downloads,
                        owners: run.owners,
                        issues: run.issues,
                        loc: run.loc,
                        has_custom_build: run.has_custom_build,
                        unclean_digest: run.unclean_digest,
                        verified: run.verified,
                    },
                );
            },
            VerifyStage::Skipped => {
                row.computation_status = ComputationStatus::Skipped;
            },
            _ => {
                row.computation_status = ComputationStatus::Failed;
            },
        }
    }
}

} // verus!
