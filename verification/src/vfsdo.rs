//! Data objects of the host-side virtual file system: node types, access
//! modes, and the volume and node descriptions handed to the guest.

use vstd::prelude::*;

verus! {

/// Whether a node is a directory or a file.
#[derive(Debug, Clone, Copy, PartialEq, Eq, Structural)]
pub enum NodeType {
    Dir,
    File,
}

/// The access mode of a volume, node or open request: read-only,
/// read-write, or write-only. The mode strings are exactly `ro`, `rw` and
/// `wo`.
#[derive(Debug, Clone, Copy, PartialEq, Eq, Structural)]
pub enum NodeMode {
    Ro,
    Rw,
    Wo,
}

impl NodeMode {
    /// Combines two modes by keeping the most restrictive one: equal
    /// modes stay, `Rw` yields to the other side, and `Ro` against `Wo`
    /// has no common meaning.
    pub fn combine(self, rhs: NodeMode) -> (r: Option<NodeMode>)
        ensures
            self == rhs ==> r == Some(self),
            self == NodeMode::Rw ==> r == Some(rhs),
            rhs == NodeMode::Rw ==> r == Some(self),
            (self == NodeMode::Ro && rhs == NodeMode::Wo) ==> r is None,
            (self == NodeMode::Wo && rhs == NodeMode::Ro) ==> r is None,
    {
        match (self, rhs) {
            (NodeMode::Rw, other) => Some(other),
            (other, NodeMode::Rw) => Some(other),
            (NodeMode::Ro, NodeMode::Ro) => Some(NodeMode::Ro),
            (NodeMode::Wo, NodeMode::Wo) => Some(NodeMode::Wo),
            (_, _) => None,
        }
    }

    /// The mode string of this mode.
    pub fn as_str(self) -> (r: &'static str)
        ensures
            self == NodeMode::Ro ==> r@ == "ro"@,
            self == NodeMode::Rw ==> r@ == "rw"@,
            self == NodeMode::Wo ==> r@ == "wo"@,
    {
        match self {
            NodeMode::Ro => "ro",
            NodeMode::Rw => "rw",
            NodeMode::Wo => "wo",
        }
    }

    /// Parses a mode string; anything but `ro`, `rw` and `wo` is
    /// rejected.
    pub fn parse(s: &str) -> (r: Option<NodeMode>)
        ensures
            s@ == "ro"@ ==> r == Some(NodeMode::Ro),
            s@ == "rw"@ ==> r == Some(NodeMode::Rw),
            s@ == "wo"@ ==> r == Some(NodeMode::Wo),
            (s@ != "ro"@ && s@ != "rw"@ && s@ != "wo"@) ==> r is None,
    {
        proof {
            reveal_strlit("ro");
            reveal_strlit("rw");
            reveal_strlit("wo");
        }
        let n = s.unicode_len();
        if n != 2 {
            return None;
        }
        let c0 = s.get_char(0);
        let c1 = s.get_char(1);
        let r = if c0 == 'r' && c1 == 'o' {
            Some(NodeMode::Ro)
        } else if c0 == 'r' && c1 == 'w' {
            Some(NodeMode::Rw)
        } else if c0 == 'w' && c1 == 'o' {
            Some(NodeMode::Wo)
        } else {
            None
        };
        proof {
            assert(s@.len() == 2);
            if c0 == 'r' && c1 == 'o' {
                assert(s@ =~= "ro"@);
            } else if c0 == 'r' && c1 == 'w' {
                assert(s@ =~= "rw"@);
            } else if c0 == 'w' && c1 == 'o' {
                assert(s@ =~= "wo"@);
            } else {
                assert(s@ != "ro"@);
                assert(s@ != "rw"@);
                assert(s@ != "wo"@);
            }
        }
        r
    }
}

/// The description of one mounted volume: its registry id, mount point
/// and access mode.
#[derive(Debug)]
pub struct VolumeInfo {
    pub id: u32,
    pub mount_point: String,
    pub mode: NodeMode,
}

/// The description of one resolved node: its type and access mode.
#[derive(Debug)]
pub struct NodeInfo {
    pub n_type: NodeType,
    pub n_mode: NodeMode,
}

} // verus!
