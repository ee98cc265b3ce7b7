//! Ground-truth input facts of an incremental analysis database (file text,
//! file paths, source roots, the crate graph), the pure resolutions derived
//! from them, and cooperative cancellation of stale computations.
pub mod cancellation;
pub mod database;
pub mod input;
pub mod paths;
pub mod store;

pub use crate::cancellation::{Canceled, CheckCanceled};
pub use crate::database::{crates_in_source_root, resolve_in_source_root, SourceDatabase};
pub use crate::input::{
    CrateData, CrateGraph, CrateId, Dependency, Edition, FileId, FilePosition, FileRange,
    SourceRoot, SourceRootId, TextRange,
};
pub use crate::store::Database;

use vstd::prelude::*;

verus! {

/// The capacity suggested for memo tables of expensive per-file queries.
pub const DEFAULT_LRU_CAP: usize = 128;

} // verus!
