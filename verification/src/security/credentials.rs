//! Per-process credentials: UID and capability set.
use vstd::prelude::*;

use super::api::{CapabilitySet, Uid, CAP_KILL_BIT, CAP_IPC_ADMIN_BIT, CAP_AUDIT_READ_BIT};

verus! {

/// Root UID: the initial process and everything forked from it before any
/// `setuid` call share this identity.
pub const ROOT_UID: Uid = 0;

/// Credentials embedded in the process security state.
#[derive(Clone, Copy, Debug, PartialEq, Eq, Structural)]
pub struct Credentials {
    pub uid: Uid,
    pub capabilities: CapabilitySet,
}

impl Credentials {
    /// UID 0 with every capability.
    pub open spec fn spec_root() -> Self {
        Credentials {
            uid: ROOT_UID,
            capabilities: CapabilitySet(CAP_KILL_BIT | CAP_IPC_ADMIN_BIT | CAP_AUDIT_READ_BIT),
        }
    }

    /// Credentials of the initial process: UID 0 with every capability.
    pub fn root() -> (r: Self)
        ensures
            r == Self::spec_root(),
    {
        Self { uid: ROOT_UID, capabilities: CapabilitySet::all() }
    }

    /// Baseline identity of the initial process; the same as `root`.
    pub fn initial() -> (r: Self)
        ensures
            r == Self::spec_root(),
    {
        Self::root()
    }

    /// A child inherits the parent's UID and capabilities.
    pub fn fork_from(parent: &Self) -> (r: Self)
        ensures
            r == *parent,
    {
        *parent
    }

    /// Whether this credential set has root privilege (UID 0).
    pub fn is_root(&self) -> (r: bool)
        ensures
            r == (self.uid == ROOT_UID),
    {
        self.uid == ROOT_UID
    }
}

} // verus!
