//! The tamper-evident digest-capture protocol, used when a human signs a new
//! review: quarantine the local tree, refetch a pristine copy, digest both,
//! and only ever sign a digest the distribution channel reproduces.
//!
//! The session moves `Pristine -> Quarantined -> { Verified | Mismatch }`.
//! The filesystem moves and the refetch are the driver's; the decisions —
//! the policy gate, the identity check, the digest comparison — are here.

use crate::hashing::Digest;
use crate::model::CoreError;
use crate::model::Version;
use crate::tree::content_digest;
use crate::tree::entries_view;
use crate::tree::ignore_view;
use crate::tree::tree_digest;
use crate::tree::TreeEntry;
use vstd::prelude::*;

verus! {

/// Where a capture stands.
#[derive(Clone, Copy, PartialEq, Eq, Structural, Debug)]
pub enum CaptureState {
    /// Nothing touched yet.
    Pristine,
    /// The target tree was moved aside; a fresh copy is being fetched.
    Quarantined,
    /// Fresh and quarantined copies hash alike; the digest is safe to sign.
    Verified,
    /// The copies hash differently; both are kept on disk for inspection.
    Mismatch,
}

/// One capture of one package's digest.
pub struct CaptureSession {
    pub name: String,
    pub version: Version,
    pub target_path: Vec<u8>,
    pub state: CaptureState,
}

/// Whether `path` lies at or under the directory `prefix` (component-wise:
/// the prefix must end at a separator or at the path's end).
pub open spec fn path_starts_with(path: Seq<u8>, prefix: Seq<u8>) -> bool {
    &&& prefix.len() <= path.len()
    &&& path.subrange(0, prefix.len() as int) == prefix
    &&& (path.len() == prefix.len() || path[prefix.len() as int] == 47u8)
}

/// Decides `path_starts_with` (47 is the path separator byte).
pub fn starts_with_dir(path: &Vec<u8>, prefix: &Vec<u8>) -> (r: bool)
    ensures
        r == path_starts_with(path@, prefix@),
{
    if prefix.len() > path.len() {
        return false;
    }
    let mut i: usize = 0;
    while i < prefix.len()
        invariant
            prefix@.len() <= path@.len(),
            i <= prefix@.len(),
            forall|k: int| 0 <= k < i ==> path@[k] == prefix@[k],
        decreases prefix@.len() - i,
    {
        if path[i] != prefix[i] {
            proof {
                assert(path@.subrange(0, prefix@.len() as int)[i as int] == path@[i as int]);
            }
            return false;
        }
        i = i + 1;
    }
    proof {
        assert(path@.subrange(0, prefix@.len() as int) =~= prefix@);
    }
    if path.len() == prefix.len() {
        true
    } else {
        path[prefix.len()] == 47
    }
}

/// Opens a capture. The target must not lie inside the caller's own working
/// tree: reviewing an in-progress local checkout is rejected with a policy
/// error — if and only if — before anything on disk is touched.
pub fn begin_capture(
    name: String,
    version: Version,
    target_path: Vec<u8>,
    work_dir: &Vec<u8>,
) -> (r: Result<CaptureSession, CoreError>)
    ensures
        r is Ok <==> !path_starts_with(target_path@, work_dir@),
        r matches Err(e) ==> e == CoreError::Policy,
        r matches Ok(s) ==> s == (CaptureSession {
            name,
            version,
            target_path,
            state: CaptureState::Pristine,
        }),
{
    if starts_with_dir(&target_path, work_dir) {
        Err(CoreError::Policy)
    } else {
        Ok(CaptureSession { name, version, target_path, state: CaptureState::Pristine })
    }
}

impl CaptureSession {
    /// Records that the driver moved the target aside (deleting any stale
    /// quarantine first) and is refetching a fresh copy.
    pub fn mark_quarantined(&mut self)
        requires
            old(self).state is Pristine,
        ensures
            *final(self) == (CaptureSession { state: CaptureState::Quarantined, ..*old(self) }),
    {
        self.state = CaptureState::Quarantined;
    }

    /// Compares the freshly fetched copy against the quarantined one.
    ///
    /// A fresh copy reporting another (name, version) than requested is a
    /// fatal consistency error in the resolver, not a tamper signal: the
    /// session stays quarantined. Otherwise the session ends `Mismatch`
    /// exactly when the two digests differ, and `Verified` — with the digest
    /// returned, safe to sign — exactly when they agree.
    pub fn complete(
        &mut self,
        fresh_name: &String,
        fresh_version: &Version,
        fresh_tree: &Vec<TreeEntry>,
        quarantined_tree: &Vec<TreeEntry>,
        ignore: &Vec<Vec<u8>>,
    ) -> (r: Result<Digest, CoreError>)
        requires
            old(self).state is Quarantined,
        ensures
            fresh_name@ != old(self).name@ || *fresh_version != old(self).version ==> (r matches
                Err(e) && e == CoreError::Collaborator && *final(self) == *old(self)),
            fresh_name@ == old(self).name@ && *fresh_version == old(self).version ==> {
                &&& (final(self).state is Mismatch <==> tree_digest(
                    entries_view(fresh_tree@),
                    ignore_view(ignore@),
                ) != tree_digest(entries_view(quarantined_tree@), ignore_view(ignore@)))
                &&& (final(self).state is Verified <==> tree_digest(
                    entries_view(fresh_tree@),
                    ignore_view(ignore@),
                ) == tree_digest(entries_view(quarantined_tree@), ignore_view(ignore@)))
                &&& (final(self).state is Verified ==> (r matches Ok(d) && d@ == tree_digest(
                    entries_view(fresh_tree@),
                    ignore_view(ignore@),
                ) && d.wf()))
                &&& (final(self).state is Mismatch ==> (r matches Err(e) && e
                    == CoreError::Digest))
                &&& final(self).name == old(self).name
                &&& final(self).version == old(self).version
                &&& final(self).target_path == old(self).target_path
            },
    {
        if !fresh_name.eq(&self.name) || !(*fresh_version == self.version) {
            return Err(CoreError::Collaborator);
        }
        let fresh_digest = content_digest(fresh_tree, ignore);
        let quarantined_digest = content_digest(quarantined_tree, ignore);
        if fresh_digest.eq_digest(&quarantined_digest) {
            self.state = CaptureState::Verified;
            Ok(fresh_digest)
        } else {
            self.state = CaptureState::Mismatch;
            Err(CoreError::Digest)
        }
    }
}

} // verus!
