//! A single node of the in-memory file tree: a named directory or file.

use vstd::prelude::*;

verus! {

/// Whether a node is a directory or a file.
#[derive(Debug, Clone, Copy, PartialEq, Eq, Structural)]
pub enum FileType {
    Dir,
    File,
}

/// One tree node. Directories have no contents of their own; file contents
/// are an append-only byte buffer.
#[derive(Debug, Clone)]
pub struct Node {
    pub name: String,
    pub file_type: FileType,
    pub contents: Vec<u8>,
}

impl Node {
    /// A fresh node with the given name and type and empty contents.
    pub fn new(name: String, file_type: FileType) -> (r: Node)
        ensures
            r.name == name,
            r.file_type == file_type,
            r.contents@ == Seq::<u8>::empty(),
    {
        Node { name, file_type, contents: Vec::new() }
    }

    /// True of a file node.
    pub fn is_file(&self) -> (r: bool)
        ensures
            r == (self.file_type == FileType::File),
    {
        self.file_type == FileType::File
    }

    /// True of a directory node.
    pub fn is_dir(&self) -> (r: bool)
        ensures
            r == (self.file_type == FileType::Dir),
    {
        self.file_type == FileType::Dir
    }
}

/// A fresh file node.
pub fn new_file_node(name: String) -> (r: Node)
    ensures
        r.name == name,
        r.file_type == FileType::File,
        r.contents@ == Seq::<u8>::empty(),
{
    Node::new(name, FileType::File)
}

/// A fresh directory node.
pub fn new_dir_node(name: String) -> (r: Node)
    ensures
        r.name == name,
        r.file_type == FileType::Dir,
        r.contents@ == Seq::<u8>::empty(),
{
    Node::new(name, FileType::Dir)
}

} // verus!
