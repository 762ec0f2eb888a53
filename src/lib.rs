//! An in-memory store of tasks and users, keyed by caller-chosen ids, with
//! upsert, lookup, delete and full-scan operations, a login check over the
//! stored users, and the flat image through which the whole store is saved
//! and restored.
use vstd::prelude::*;

pub mod model;
pub mod store;
pub mod auth;
pub mod snapshot;
pub mod laws;

verus! {

} // verus!
