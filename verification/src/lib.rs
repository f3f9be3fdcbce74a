//! A virtual file system layer for a WebAssembly sandbox: path parsing and
//! normalization, an in-memory authoritative file tree, a mount registry with
//! a bounded descriptor table, and a read-only archive backend.

pub mod error;
pub mod file;
pub mod memfs;
pub mod node;
pub mod hostfs;
pub mod load;
pub mod normpath;
pub mod sandbox;
pub mod safepath;
pub mod vfs;
pub mod vfsdo;
pub mod vfsops;
pub mod zipfs;

use vstd::prelude::*;

verus! {

/// Returns the smaller of two lengths, used when a positioned read is clipped
/// to the end of a buffer.
pub fn min_usize(a: usize, b: usize) -> (r: usize)
    ensures
        r == if a <= b { a as int } else { b as int },
{
    if a <= b {
        a
    } else {
        b
    }
}

} // verus!
