//! Verified IPC security core of a teaching kernel: credentials, signal
//! policy, descriptor quotas, a bounded audit log with its stable ABI, the
//! pipe ring buffer and the syscall decisions built on top of them.
use vstd::prelude::*;

pub mod fs;
pub mod mm;
pub mod security;
pub mod syscall;
pub mod timer;
pub mod user;

verus! {
} // verus!
