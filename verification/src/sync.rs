//! Run-level decisions of the sync orchestrator.
//!
//! One run processes every configured subscription independently: a failing
//! subscription is skipped and reported, never aborting its siblings. This
//! module holds the subscription value, the choice of an additional local
//! output path, and the summary that turns per-subscription outcomes into the
//! run's exit code.

use crate::bytes::{clone_bytes, push_range, B_DOT, B_M, B_SLASH, B_THREE, B_U};
use crate::device::m3u_ext;
use crate::SyncError;
use vstd::prelude::*;

verus! {

/// One configured podcast subscription, immutable for the run.
pub struct Subscription {
    /// Unique key; used as playlist filename and device directory entry.
    pub name: Vec<u8>,
    /// The URL the feed document is fetched from.
    pub feed_url: Vec<u8>,
    /// Keep at most this many episodes, when set.
    pub truncate: Option<usize>,
    /// Invert the feed order before truncating.
    pub reverse: bool,
    /// Also write the playlist to this local path, when set.
    pub local_file: Option<Vec<u8>>,
}

/// The default local output path `./<name>.m3u`.
pub open spec fn spec_default_local_path(name: Seq<u8>) -> Seq<u8> {
    seq![B_DOT, B_SLASH] + name + m3u_ext()
}

/// Where the playlist must additionally be written locally: under force-write
/// always `./<name>.m3u`, otherwise the configured path when there is one.
pub fn local_target(force_write: bool, name: &Vec<u8>, configured: &Option<Vec<u8>>) -> (r: Option<
    Vec<u8>,
>)
    ensures
        force_write ==> (r matches Some(p) && p@ == spec_default_local_path(name@)),
        !force_write ==> match configured {
            Some(c) => r matches Some(p) && p@ == c@,
            None => r is None,
        },
{
    if force_write {
        let mut out: Vec<u8> = Vec::new();
        out.push(B_DOT);
        out.push(B_SLASH);
        push_range(&mut out, name, 0, name.len());
        out.push(B_DOT);
        out.push(B_M);
        out.push(B_THREE);
        out.push(B_U);
        proof {
            assert(name@.subrange(0, name@.len() as int) =~= name@);
            assert(out@ =~= spec_default_local_path(name@));
        }
        Some(out)
    } else {
        match configured {
            Some(c) => Some(clone_bytes(c)),
            None => None,
        }
    }
}

/// How processing one subscription ended.
#[derive(Clone, Copy, Debug, PartialEq, Eq, Structural)]
pub enum SubscriptionOutcome {
    /// The playlist was resolved and handed to the upload phase.
    Synced,
    /// The subscription was skipped or its write failed.
    Failed(SyncError),
}

/// Some subscription of the run failed.
pub open spec fn spec_any_failed(outcomes: Seq<SubscriptionOutcome>) -> bool {
    exists|i: int| 0 <= i < outcomes.len() && outcomes[i] is Failed
}

/// Whether any subscription of the run failed.
pub fn any_failed(outcomes: &Vec<SubscriptionOutcome>) -> (r: bool)
    ensures
        r == spec_any_failed(outcomes@),
{
    let mut i: usize = 0;
    while i < outcomes.len()
        invariant
            i <= outcomes@.len(),
            forall|j: int| 0 <= j < i ==> !(outcomes@[j] is Failed),
        decreases outcomes@.len() - i,
    {
        let failed = match outcomes[i] {
            SubscriptionOutcome::Failed(_) => true,
            SubscriptionOutcome::Synced => false,
        };
        if failed {
            return true;
        }
        i += 1;
    }
    proof {
        assert(!spec_any_failed(outcomes@)) by {
            if spec_any_failed(outcomes@) {
                let w = choose|w: int| 0 <= w < outcomes@.len() && outcomes@[w] is Failed;
                assert(false);
            }
        }
    }
    false
}

/// The run's exit code: zero exactly when every subscription synced, non-zero
/// when the run ended in partial failure.
pub fn exit_code(outcomes: &Vec<SubscriptionOutcome>) -> (r: i32)
    ensures
        r == 0 <==> !spec_any_failed(outcomes@),
{
    if any_failed(outcomes) {
        1
    } else {
        0
    }
}

} // verus!
