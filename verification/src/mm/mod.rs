//! Memory-management pieces of the IPC extension.
use vstd::prelude::*;

pub mod page_table;

verus! {
} // verus!
