//! User-space side of the audit interface.
use vstd::prelude::*;

pub mod audit;
pub mod auditctl;
pub mod text;

verus! {
} // verus!
