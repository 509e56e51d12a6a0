//! The filesystem capability: the one operation the traversal engine needs
//! from its host. Deterministic in-memory doubles can stand in for real
//! storage, so the engine is testable without touching a disk.

use vstd::prelude::*;

use crate::models::FsEntry;

verus! {

/// Lists a directory's entries. An implementation reports each entry with
/// its locator, base name and kind, classifying without following symlinks;
/// a directory it cannot read is reported as an error message. Nothing more
/// is assumed of an implementation: the engine's guarantees hold for every
/// answer a capability can give.
pub trait FileSystem {
    fn read_dir(&self, dir: &String) -> Result<Vec<FsEntry>, String>;
}

} // verus!
