//! File objects of the IPC extension.
use vstd::prelude::*;

pub mod pipe;

use crate::security::api::IpcObject;

verus! {

/// What the IPC syscalls need to know of an open file. Reading and writing
/// the data itself is done by the kernel's file implementations.
pub trait File {
    spec fn spec_readable(&self) -> bool;

    spec fn spec_writable(&self) -> bool;

    spec fn spec_ipc_object(&self) -> Option<IpcObject>;

    fn readable(&self) -> (r: bool)
        ensures
            r == self.spec_readable(),
    ;

    fn writable(&self) -> (r: bool)
        ensures
            r == self.spec_writable(),
    ;

    /// IPC files expose stable audit metadata; ordinary files give `None`.
    fn ipc_object(&self) -> (r: Option<IpcObject>)
        ensures
            r == self.spec_ipc_object(),
    ;
}

} // verus!
