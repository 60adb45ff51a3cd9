//! The data model of the verification pipeline: trust levels, versions,
//! review and owner counts with their invariants, policy thresholds, the
//! error taxonomy, and the per-dependency record and status.

use crate::hashing::Digest;
use vstd::prelude::*;

verus! {

/// Effective trust in an identity, lowest first.
#[derive(Clone, Copy, PartialEq, Eq, Structural, Debug)]
pub enum Level {
    NoTrust,
    Low,
    Medium,
    High,
}

impl Level {
    /// Numeric rank of a level, for threshold comparisons.
    pub open spec fn spec_rank(self) -> int {
        match self {
            Level::NoTrust => 0,
            Level::Low => 1,
            Level::Medium => 2,
            Level::High => 3,
        }
    }

    pub fn rank(self) -> (r: u8)
        ensures
            r as int == self.spec_rank(),
    {
        match self {
            Level::NoTrust => 0,
            Level::Low => 1,
            Level::Medium => 2,
            Level::High => 3,
        }
    }
}

/// A package version, modelled as its numeric components.
#[derive(Clone, Copy, PartialEq, Eq, Structural, Debug)]
pub struct Version {
    pub major: u64,
    pub minor: u64,
    pub patch: u64,
}

impl Version {
    pub fn new(major: u64, minor: u64, patch: u64) -> (v: Version)
        ensures
            v == (Version { major, minor, patch }),
    {
        Version { major, minor, patch }
    }
}

/// Review counts for one version of a package against all of its versions.
/// Invariant: the one-version count never exceeds the overall count.
#[derive(Clone, Copy, PartialEq, Eq, Structural, Debug)]
pub struct CrateCounts {
    pub version: u64,
    pub total: u64,
}

impl CrateCounts {
    pub open spec fn wf(&self) -> bool {
        self.version <= self.total
    }

    /// Builds counts, rejecting a pair that violates the invariant.
    pub fn new(version: u64, total: u64) -> (r: Option<CrateCounts>)
        ensures
            r is Some <==> version <= total,
            r matches Some(c) ==> c == (CrateCounts { version, total }) && c.wf(),
    {
        if version <= total {
            Some(CrateCounts { version, total })
        } else {
            None
        }
    }
}

/// Counts restricted to trusted identities against all identities.
/// Invariant: the trusted count never exceeds the overall count.
#[derive(Clone, Copy, PartialEq, Eq, Structural, Debug)]
pub struct TrustCount {
    pub trusted: u64,
    pub total: u64,
}

impl TrustCount {
    pub open spec fn wf(&self) -> bool {
        self.trusted <= self.total
    }

    /// Builds counts, rejecting a pair that violates the invariant.
    pub fn new(trusted: u64, total: u64) -> (r: Option<TrustCount>)
        ensures
            r is Some <==> trusted <= total,
            r matches Some(c) ==> c == (TrustCount { trusted, total }) && c.wf(),
    {
        if trusted <= total {
            Some(TrustCount { trusted, total })
        } else {
            None
        }
    }
}

/// Policy thresholds deciding what counts as verified.
#[derive(Clone, Copy, PartialEq, Eq, Structural, Debug)]
pub struct VerificationRequirements {
    /// Minimum effective trust level required of an identity.
    pub trust_level: Level,
    /// Minimum number of distinct trusted identities behind a review.
    pub redundancy: u64,
    /// Staleness tolerance for reviews, in days.
    pub staleness_days: u64,
}

/// The identities reachable from the root identity within policy bounds.
/// Computed once per run by the trust-graph collaborator; read-only here.
pub struct TrustSet {
    pub ids: Vec<String>,
}

impl TrustSet {
    /// The trust set used when no root identity is given: nobody is trusted.
    pub fn empty() -> (t: TrustSet)
        ensures
            t.ids@.len() == 0,
    {
        TrustSet { ids: Vec::new() }
    }
}

/// The error taxonomy: recoverable collaborator failures never surface here;
/// these are the fatal classes a caller must distinguish.
#[derive(Clone, Copy, PartialEq, Eq, Structural, Debug)]
pub enum CoreError {
    /// Reading a tree or a store failed.
    Io,
    /// The quarantined and freshly fetched trees hash differently.
    Digest,
    /// A guarded operation was attempted on a forbidden path.
    Policy,
    /// A collaborator returned inconsistent data.
    Collaborator,
}

/// The outcome of one dependency's verification, as the batch driver sees it.
#[derive(Debug)]
pub enum ComputationStatus {
    Pending,
    InProgress,
    /// The pipeline ran to the end and produced a record.
    Completed(VerificationRecord),
    /// A skip policy ended the pipeline early.
    Skipped,
    /// A fatal error ended this dependency's verification.
    Failed,
}

/// The final per-dependency output of a successful pipeline run.
#[derive(Debug)]
pub struct VerificationRecord {
    pub digest: Digest,
    pub name: String,
    pub version: Version,
    pub latest_trusted_version: Option<Version>,
    pub reviews: CrateCounts,
    pub downloads: Option<CrateCounts>,
    pub owners: Option<TrustCount>,
    pub issues: TrustCount,
    pub loc: Option<u64>,
    pub has_custom_build: bool,
    pub unclean_digest: bool,
    pub verified: bool,
}

impl VerificationRecord {
    /// Every count stored in a record satisfies its invariant.
    pub open spec fn wf(&self) -> bool {
        &&& self.digest.wf()
        &&& self.reviews.wf()
        &&& self.issues.wf()
        &&& (self.downloads matches Some(d) ==> d.wf())
        &&& (self.owners matches Some(o) ==> o.wf())
    }
}

/// One dependency of the batch, owned by the driver.
#[derive(Debug)]
pub struct DepRow {
    pub name: String,
    pub version: Version,
    pub has_custom_build: bool,
    pub computation_status: ComputationStatus,
}

impl DepRow {
    pub fn new(name: String, version: Version, has_custom_build: bool) -> (r: DepRow)
        ensures
            r.name == name,
            r.version == version,
            r.has_custom_build == has_custom_build,
            r.computation_status is Pending,
    {
        DepRow { name, version, has_custom_build, computation_status: ComputationStatus::Pending }
    }
}

} // verus!
