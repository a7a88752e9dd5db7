//! Syscall bodies of the IPC security extension, written over explicit
//! process and kernel state.
use vstd::prelude::*;

pub mod fs;
pub mod process;
pub mod security;

use crate::security::api::IpcError;
use crate::security::audit::errno_of;

verus! {

/// Negative errno returned to user space for an IPC error.
pub fn ipc_error_to_ret(error: IpcError) -> (r: isize)
    ensures
        r == -errno_of(error),
{
    match error {
        IpcError::PermissionDenied => -1,
        IpcError::InvalidAddress => -14,
        IpcError::InvalidArgument => -22,
        IpcError::ProcessNotFound => -3,
        IpcError::TooManyFiles => -24,
        IpcError::ResourceExhausted => -28,
        IpcError::TryAgain => -11,
    }
}

} // verus!
