//! User-side view of the audit ABI: operation names and errno constants.
use vstd::prelude::*;

use crate::security::audit::{
    AUDIT_OP_AUDIT_READ, AUDIT_OP_IPC_STAT, AUDIT_OP_PIPE_CREATE, AUDIT_OP_PIPE_READ,
    AUDIT_OP_PIPE_WRITE, AUDIT_OP_SIGNAL_SEND, AUDIT_OP_UNSPECIFIED,
};

verus! {

/// Permission denied.
pub const EPERM: i32 = 1;
/// No such process.
pub const ESRCH: i32 = 3;
/// Try again.
pub const EAGAIN: i32 = 11;
/// Bad address.
pub const EFAULT: i32 = 14;
/// Invalid argument.
pub const EINVAL: i32 = 22;
/// Too many open files.
pub const EMFILE: i32 = 24;
/// No space left for the requested IPC resource.
pub const ENOSPC: i32 = 28;

/// Stable name of an audit operation number, if it is a known one.
pub open spec fn operation_label(operation: u16) -> Option<&'static str> {
    if operation == AUDIT_OP_UNSPECIFIED {
        Some("unspecified")
    } else if operation == AUDIT_OP_SIGNAL_SEND {
        Some("signal_send")
    } else if operation == AUDIT_OP_PIPE_CREATE {
        Some("pipe_create")
    } else if operation == AUDIT_OP_PIPE_READ {
        Some("pipe_read")
    } else if operation == AUDIT_OP_PIPE_WRITE {
        Some("pipe_write")
    } else if operation == AUDIT_OP_AUDIT_READ {
        Some("audit_read")
    } else if operation == AUDIT_OP_IPC_STAT {
        Some("ipc_stat")
    } else {
        None
    }
}

/// Stable name of a known audit operation; unknown numbers give `None` and
/// are left to the caller to display.
pub fn operation_name(operation: u16) -> (r: Option<&'static str>)
    ensures
        r == operation_label(operation),
        r is Some <==> operation <= AUDIT_OP_IPC_STAT,
{
    if operation == AUDIT_OP_UNSPECIFIED {
        Some("unspecified")
    } else if operation == AUDIT_OP_SIGNAL_SEND {
        Some("signal_send")
    } else if operation == AUDIT_OP_PIPE_CREATE {
        Some("pipe_create")
    } else if operation == AUDIT_OP_PIPE_READ {
        Some("pipe_read")
    } else if operation == AUDIT_OP_PIPE_WRITE {
        Some("pipe_write")
    } else if operation == AUDIT_OP_AUDIT_READ {
        Some("audit_read")
    } else if operation == AUDIT_OP_IPC_STAT {
        Some("ipc_stat")
    } else {
        None
    }
}

} // verus!
