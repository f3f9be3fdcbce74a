//! The backend contract: the capability set any storage backend
//! implements. A volume exposes its root; a node can be inspected, looked
//! up in, opened, listed, or extended with a directory; a stream is an
//! open, positioned byte channel into one file.

use crate::vfsdo::{NodeMode, NodeType};
use vstd::prelude::*;

verus! {

/// An error of a host-side volume operation, mirroring the conditions the
/// guest can observe.
#[derive(Debug, Clone, Copy, PartialEq, Eq, Structural)]
pub enum VfsError {
    /// A malformed path, mode or descriptor.
    InvalidInput,
    /// A missing path component.
    NotFound,
    /// A write or directory creation on read-only storage.
    PermissionDenied,
    /// No free slot in the descriptor table.
    ResourceExhausted,
}

/// One mounted storage backend; its only operation is producing its root
/// node.
pub trait VfsVolume: Sized {
    type INode: INode;

    /// The root node of the volume.
    fn root(&self) -> Result<Self::INode, VfsError>;
}

/// One directory or file inside a backend. A directory can look up a
/// named child, where `.` resolves to the node itself and `..` to its
/// parent, or to itself at the volume root — the containment invariant
/// that keeps traversal inside the mount.
pub trait INode: Sized {
    type Stream: Stream;

    /// The node's type and access mode.
    fn mode(&self) -> (NodeType, NodeMode);

    /// Opens the named child of a directory as a stream.
    fn open(&self, name: &str, mode: NodeMode, create_new: bool) -> Result<Self::Stream, VfsError>;

    /// Creates a named child directory of a writable directory.
    fn mkdir(&mut self, name: &str) -> Result<Self, VfsError>;

    /// Resolves a named child of a directory; absent children are `None`.
    fn lookup(&self, name: &str) -> Result<Option<Self>, VfsError>;

    /// The names of a directory's children.
    fn read_dir(&self) -> Result<Vec<String>, VfsError>;
}

/// An open, positioned byte channel into one file.
pub trait Stream {
    /// Reads at most `len` bytes at the given byte position.
    fn read(&mut self, len: usize, position: u64) -> Result<Vec<u8>, VfsError>;

    /// Writes the buffer at the given byte position and returns how many
    /// bytes were written.
    fn write(&mut self, buf: &[u8], position: u64) -> Result<u64, VfsError>;

    /// Releases the stream; only then are its contents durable.
    fn close(&mut self) -> Result<(), VfsError>;
}

} // verus!
