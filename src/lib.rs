//! Tracks which of the repository's maintained branches a merged change has
//! reached: the succession rules between branches, the tree of branches a
//! change can flow into, and its annotation from the branches known to hold
//! the change's merge commit.
use vstd::prelude::*;

pub mod branches;
pub mod github;
pub mod nixpkgs;
pub mod ogmeta;
pub mod text;
pub mod tree;

verus! {

} // verus!
