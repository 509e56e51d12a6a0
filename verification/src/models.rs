//! The data types shared by the traversal engine and the renderer: directory
//! entries as the filesystem capability reports them, and the tree of rendered
//! nodes that the engine produces.

use vstd::prelude::*;

verus! {

/// The kind of a directory entry. Exactly one kind per entry; a symlink is
/// never resolved to its target's kind.
#[derive(Clone, Copy, Debug, PartialEq, Eq, Structural)]
pub enum EntryKind {
    Directory,
    File,
    Symlink,
    Other,
}

/// One item of a directory listing: a locator for the entry, its base name
/// (no trailing separator), and its kind.
#[derive(Clone, Debug)]
pub struct FsEntry {
    pub path: String,
    pub name: String,
    pub kind: EntryKind,
}

/// An entry after filtering, sorting and rendering: `name` is the rendered
/// name (base name, plus a trailing `/` iff the kind is `Directory`), `error`
/// records a failed listing of this directory, and `children` are the node's
/// own rendered children, in display order.
pub struct TreeNode {
    pub name: String,
    pub kind: EntryKind,
    pub error: Option<String>,
    pub children: Vec<TreeNode>,
}

/// The result of walking the root directory itself: its rendered children,
/// or the error that its own listing produced.
pub struct DirTree {
    pub error: Option<String>,
    pub children: Vec<TreeNode>,
}

} // verus!
