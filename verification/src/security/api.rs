//! Stable data types shared by the IPC security modules.
use vstd::prelude::*;

verus! {

/// User identity used by the security model.
pub type Uid = u32;

/// Stable identifier for an IPC object.
pub type ResourceId = u64;

/// Bit of the capability to signal processes owned by another user.
pub const CAP_KILL_BIT: u32 = 1;

/// Bit of the capability to administer IPC resources.
pub const CAP_IPC_ADMIN_BIT: u32 = 2;

/// Bit of the capability to read the security audit stream.
pub const CAP_AUDIT_READ_BIT: u32 = 4;

/// Minimal capability set carried by a process.
#[derive(Clone, Copy, Debug, PartialEq, Eq, Structural)]
pub struct CapabilitySet(pub u32);

impl CapabilitySet {
    /// Whether every bit of `required` is present in this set.
    pub open spec fn has(self, required: CapabilitySet) -> bool {
        self.0 & required.0 == required.0
    }

    /// No capabilities.
    pub fn empty() -> (r: Self)
        ensures
            r.0 == 0,
    {
        Self(0)
    }

    /// Every capability the model knows of.
    pub fn all() -> (r: Self)
        ensures
            r.0 == CAP_KILL_BIT | CAP_IPC_ADMIN_BIT | CAP_AUDIT_READ_BIT,
    {
        Self(CAP_KILL_BIT | CAP_IPC_ADMIN_BIT | CAP_AUDIT_READ_BIT)
    }

    /// Capability to signal processes owned by another user.
    pub fn kill() -> (r: Self)
        ensures
            r.0 == CAP_KILL_BIT,
    {
        Self(CAP_KILL_BIT)
    }

    /// Capability to administer IPC resources.
    pub fn ipc_admin() -> (r: Self)
        ensures
            r.0 == CAP_IPC_ADMIN_BIT,
    {
        Self(CAP_IPC_ADMIN_BIT)
    }

    /// Capability to read the security audit stream.
    pub fn audit_read() -> (r: Self)
        ensures
            r.0 == CAP_AUDIT_READ_BIT,
    {
        Self(CAP_AUDIT_READ_BIT)
    }

    /// Return whether every bit in `required` is present.
    pub fn contains(self, required: Self) -> (r: bool)
        ensures
            r == self.has(required),
    {
        self.0 & required.0 == required.0
    }
}

/// IPC operations that can be authorized and audited.
#[derive(Clone, Copy, Debug, PartialEq, Eq, Structural)]
pub enum IpcOperation {
    SignalSend,
    PipeCreate,
    PipeRead,
    PipeWrite,
    AuditRead,
}

/// Security attributes of the calling process.
#[derive(Clone, Copy, Debug, PartialEq, Eq, Structural)]
pub struct IpcSubject {
    pub pid: usize,
    pub uid: Uid,
    pub capabilities: CapabilitySet,
}

/// Security attributes of the target process or IPC object.
#[derive(Clone, Copy, Debug, PartialEq, Eq, Structural)]
pub struct IpcObject {
    pub id: ResourceId,
    pub owner_uid: Uid,
}

/// Common request passed through policy, quota, and audit modules.
#[derive(Clone, Copy, Debug, PartialEq, Eq, Structural)]
pub struct IpcRequest {
    pub subject: IpcSubject,
    pub object: IpcObject,
    pub operation: IpcOperation,
    pub amount: usize,
}

/// Errors exposed by the IPC security boundary.
#[derive(Clone, Copy, Debug, PartialEq, Eq, Structural)]
pub enum IpcError {
    PermissionDenied,
    InvalidAddress,
    InvalidArgument,
    ProcessNotFound,
    TooManyFiles,
    ResourceExhausted,
    TryAgain,
}

/// Common result type for IPC security operations.
pub type IpcResult<T> = Result<T, IpcError>;

} // verus!
