//! Authorization policy for IPC operations.
use vstd::prelude::*;

use super::api::{CapabilitySet, IpcError, IpcOperation, IpcRequest, IpcResult, CAP_KILL_BIT};

verus! {

/// The signal rule: the sender signals itself, owns the target, is root, or
/// holds the `KILL` capability.
pub open spec fn signal_allowed(request: IpcRequest) -> bool {
    ||| request.subject.pid == request.object.id
    ||| request.subject.uid == request.object.owner_uid
    ||| request.subject.uid == 0
    ||| request.subject.capabilities.has(CapabilitySet(CAP_KILL_BIT))
}

/// The decision of the policy on a request.
pub open spec fn authorization(request: IpcRequest) -> IpcResult<()> {
    if request.operation == IpcOperation::SignalSend && !signal_allowed(request) {
        Err(IpcError::PermissionDenied)
    } else {
        Ok(())
    }
}

/// Authorize an IPC request.
///
/// Signal sending is allowed to the process itself, to the owner of the
/// target, to root and to holders of `KILL`; every other sender gets
/// `PermissionDenied`. The other operations are not restricted by policy.
pub fn authorize(request: &IpcRequest) -> (r: IpcResult<()>)
    ensures
        r == authorization(*request),
{
    match request.operation {
        IpcOperation::SignalSend => authorize_signal(request),
        _ => Ok(()),
    }
}

/// Check whether the subject may send a signal to the object.
pub fn authorize_signal(request: &IpcRequest) -> (r: IpcResult<()>)
    ensures
        r == (if signal_allowed(*request) { Ok(()) } else { Err(IpcError::PermissionDenied) }),
{
    let subj = &request.subject;
    let obj = &request.object;
    if subj.pid as u64 == obj.id {
        return Ok(());
    }
    if subj.uid == obj.owner_uid {
        return Ok(());
    }
    if subj.uid == 0 {
        return Ok(());
    }
    if subj.capabilities.contains(CapabilitySet::kill()) {
        return Ok(());
    }
    Err(IpcError::PermissionDenied)
}

} // verus!
