//! The mount registry and descriptor table: volumes are bound to mount
//! points with an access mode and addressed by position; open streams live
//! in a fixed table of 64 slots addressed by small integers.

use crate::normpath::lemma_split_slash_empty;
use crate::safepath::{ends_in_slash, path_ok, strip_root, SafePath};
use crate::vfsdo::{NodeInfo, NodeMode, NodeType, VolumeInfo};
use crate::vfsops::{INode, Stream, VfsError, VfsVolume};
use vstd::prelude::*;

verus! {

/// The number of descriptor slots.
pub const FD_SLOTS: usize = 64;

/// The stream type of a volume's nodes.
pub type StreamOf<V> = <<V as VfsVolume>::INode as INode>::Stream;

/// One bound volume: the backend, its mount point and its declared
/// access mode.
struct Resolver<V: VfsVolume> {
    volume: V,
    mount_point: String,
    mode: NodeMode,
}

/// What the registry decides from one backend lookup along a walk: a
/// found child continues the walk unchanged; a missing child is the leaf
/// being absent at the terminal segment, and `NotFound` anywhere before
/// it — distinguishing a missing parent from a missing leaf.
pub fn walk_step<N>(child: Option<N>, terminal: bool) -> (r: Result<Option<N>, VfsError>)
    ensures
        child is Some ==> r == Ok::<Option<N>, VfsError>(child),
        child is None && terminal ==> r == Ok::<Option<N>, VfsError>(None::<N>),
        child is None && !terminal ==> r == Err::<Option<N>, VfsError>(VfsError::NotFound),
{
    match child {
        Some(n) => Ok(Some(n)),
        None => {
            if terminal {
                Ok(None)
            } else {
                Err(VfsError::NotFound)
            }
        },
    }
}

/// What the registry decides when an operation needs the resolved node
/// itself: an absent terminal node is `NotFound`.
pub fn require_found<N>(node: Option<N>) -> (r: Result<N, VfsError>)
    ensures
        node matches Some(n) ==> r == Ok::<N, VfsError>(n),
        node is None ==> r == Err::<N, VfsError>(VfsError::NotFound),
{
    match node {
        Some(n) => Ok(n),
        None => Err(VfsError::NotFound),
    }
}

/// The node description the registry reports from what a backend's
/// `mode` call returned.
pub fn node_info(n_type: NodeType, n_mode: NodeMode) -> (r: NodeInfo)
    ensures
        r.n_type == n_type,
        r.n_mode == n_mode,
{
    NodeInfo { n_type, n_mode }
}

impl<V: VfsVolume> Resolver<V> {
    /// Resolves a path to a node by walking `lookup` from the root. A
    /// missing intermediate node is an error; a missing terminal node is
    /// `None`. A malformed path is refused before any backend call.
    fn find_inode(&self, path: &str) -> (r: Result<Option<V::INode>, VfsError>)
        ensures
            !path_ok(strip_root(path@)) ==> r == Err::<Option<V::INode>, VfsError>(
                VfsError::InvalidInput,
            ),
    {
        let parts = match SafePath::from_str(path).parts() {
            Ok(v) => v,
            Err(e) => {
                return Err(e);
            },
        };
        let root = match self.volume.root() {
            Ok(n) => n,
            Err(e) => {
                return Err(e);
            },
        };
        let mut cur: Option<V::INode> = Some(root);
        let mut i: usize = 0;
        while i < parts.len()
            invariant
                path_ok(strip_root(path@)),
                cur is None ==> i >= parts@.len(),
            decreases parts@.len() - i,
        {
            let node = match cur {
                Some(n) => n,
                None => {
                    proof {
                        assert(false);
                    }
                    return Err(VfsError::NotFound);
                },
            };
            let child = match node.lookup(parts[i].name()) {
                Ok(c) => c,
                Err(e) => {
                    return Err(e);
                },
            };
            cur = match walk_step(child, i + 1 == parts.len()) {
                Ok(c) => c,
                Err(e) => {
                    return Err(e);
                },
            };
            i += 1;
        }
        Ok(cur)
    }

    /// The description of this volume under the given id.
    fn info(&self, id: u32) -> (r: VolumeInfo)
        ensures
            r.id == id,
            r.mount_point@ == self.mount_point@,
            r.mode == self.mode,
    {
        VolumeInfo { id, mount_point: self.mount_point.clone(), mode: self.mode }
    }

    /// The type and mode of the node at `path`, or `None` if the
    /// terminal component is absent.
    fn lookup(&self, path: &str) -> (r: Result<Option<NodeInfo>, VfsError>)
        ensures
            !path_ok(strip_root(path@)) ==> r == Err::<Option<NodeInfo>, VfsError>(
                VfsError::InvalidInput,
            ),
    {
        let inode = match self.find_inode(path) {
            Ok(v) => v,
            Err(e) => {
                return Err(e);
            },
        };
        match inode {
            Some(n) => {
                let (n_type, n_mode) = n.mode();
                Ok(Some(node_info(n_type, n_mode)))
            },
            None => Ok(None),
        }
    }

    /// Creates a directory at the terminal segment of `path`. A volume
    /// declared read-only refuses outright, whatever the path; after
    /// that, a malformed or rootless path is refused before any backend
    /// call, and a path with no terminal segment cannot succeed.
    fn mkdir(&self, path: &str) -> (r: Result<NodeInfo, VfsError>)
        ensures
            self.mode == NodeMode::Ro ==> r == Err::<NodeInfo, VfsError>(
                VfsError::PermissionDenied,
            ),
            self.mode != NodeMode::Ro && !path_ok(strip_root(path@)) ==> r == Err::<
                NodeInfo,
                VfsError,
            >(VfsError::InvalidInput),
            self.mode != NodeMode::Ro && path_ok(strip_root(path@)) && strip_root(path@).len()
                == 0 ==> r == Err::<NodeInfo, VfsError>(VfsError::InvalidInput),
            self.mode != NodeMode::Ro && ends_in_slash(strip_root(path@)) ==> r is Err,
    {
        match self.mode {
            NodeMode::Ro => {
                return Err(VfsError::PermissionDenied);
            },
            _ => {},
        }
        let parts = match SafePath::from_str(path).parts() {
            Ok(v) => v,
            Err(e) => {
                return Err(e);
            },
        };
        if parts.len() == 0 {
            proof {
                lemma_split_slash_empty(strip_root(path@));
            }
            return Err(VfsError::InvalidInput);
        }
        proof {
            lemma_split_slash_empty(strip_root(path@));
        }
        let mut node = match self.volume.root() {
            Ok(n) => n,
            Err(e) => {
                return Err(e);
            },
        };
        let mut i: usize = 0;
        while i < parts.len()
            invariant
                self.mode != NodeMode::Ro,
                path_ok(strip_root(path@)),
                strip_root(path@).len() > 0,
                i <= parts@.len(),
                forall|k: int|
                    0 <= k < parts@.len() ==> (#[trigger] parts@[k]).spec_is_last() == (k
                        == parts@.len() - 1 && !ends_in_slash(strip_root(path@))),
            decreases parts@.len() - i,
        {
            if parts[i].is_last() {
                let created = match node.mkdir(parts[i].name()) {
                    Ok(c) => c,
                    Err(e) => {
                        return Err(e);
                    },
                };
                let (n_type, n_mode) = created.mode();
                return Ok(node_info(n_type, n_mode));
            }
            let child = match node.lookup(parts[i].name()) {
                Ok(c) => c,
                Err(e) => {
                    return Err(e);
                },
            };
            node = match walk_step(child, false) {
                Ok(Some(n)) => n,
                Ok(None) => {
                    proof {
                        assert(false);
                    }
                    return Err(VfsError::NotFound);
                },
                Err(e) => {
                    return Err(e);
                },
            };
            i += 1;
        }
        Err(VfsError::InvalidInput)
    }

    /// Opens the terminal segment of `path` as a stream, resolving all
    /// segments before it as directories. A malformed or rootless path is
    /// refused before any backend call, and a path with no terminal
    /// segment cannot succeed.
    fn open(&self, path: &str, mode: NodeMode, create_new: bool) -> (r: Result<
        StreamOf<V>,
        VfsError,
    >)
        ensures
            !path_ok(strip_root(path@)) ==> (r matches Err(e) && e == VfsError::InvalidInput),
            path_ok(strip_root(path@)) && strip_root(path@).len() == 0 ==> (r matches Err(e) && e
                == VfsError::InvalidInput),
            ends_in_slash(strip_root(path@)) ==> r is Err,
    {
        let parts = match SafePath::from_str(path).parts() {
            Ok(v) => v,
            Err(e) => {
                return Err(e);
            },
        };
        if parts.len() == 0 {
            proof {
                lemma_split_slash_empty(strip_root(path@));
            }
            return Err(VfsError::InvalidInput);
        }
        proof {
            lemma_split_slash_empty(strip_root(path@));
        }
        let mut dir = match self.volume.root() {
            Ok(n) => n,
            Err(e) => {
                return Err(e);
            },
        };
        let mut i: usize = 0;
        while i < parts.len()
            invariant
                path_ok(strip_root(path@)),
                strip_root(path@).len() > 0,
                i <= parts@.len(),
                forall|k: int|
                    0 <= k < parts@.len() ==> (#[trigger] parts@[k]).spec_is_last() == (k
                        == parts@.len() - 1 && !ends_in_slash(strip_root(path@))),
            decreases parts@.len() - i,
        {
            if parts[i].is_last() {
                return dir.open(parts[i].name(), mode, create_new);
            }
            let child = match dir.lookup(parts[i].name()) {
                Ok(c) => c,
                Err(e) => {
                    return Err(e);
                },
            };
            dir = match walk_step(child, false) {
                Ok(Some(n)) => n,
                Ok(None) => {
                    proof {
                        assert(false);
                    }
                    return Err(VfsError::NotFound);
                },
                Err(e) => {
                    return Err(e);
                },
            };
            i += 1;
        }
        Err(VfsError::InvalidInput)
    }

    /// The names of the children of the directory at `path`.
    fn readdir(&self, path: &str) -> (r: Result<Vec<String>, VfsError>)
        ensures
            !path_ok(strip_root(path@)) ==> r == Err::<Vec<String>, VfsError>(
                VfsError::InvalidInput,
            ),
    {
        let found = match self.find_inode(path) {
            Ok(v) => v,
            Err(e) => {
                return Err(e);
            },
        };
        match require_found(found) {
            Ok(n) => n.read_dir(),
            Err(e) => Err(e),
        }
    }
}

/// The process-wide view of mounted storage: the bound volumes, in bind
/// order, and the table of open descriptors.
pub struct VfsManager<V: VfsVolume> {
    fds: Vec<Option<StreamOf<V>>>,
    volumes: Vec<Resolver<V>>,
}

impl<V: VfsVolume> VfsManager<V> {
    /// The descriptor table always has exactly [`FD_SLOTS`] slots, and
    /// volume ids stay representable.
    pub closed spec fn wf(&self) -> bool {
        self.fds@.len() == FD_SLOTS && self.volumes@.len() <= u32::MAX
    }

    /// The descriptor slots themselves: `None` for a free slot, the open
    /// stream for an assigned one.
    pub closed spec fn slots(&self) -> Seq<Option<StreamOf<V>>> {
        self.fds@
    }

    /// Whether descriptor `i` is assigned.
    pub open spec fn fd_open(&self, i: int) -> bool {
        0 <= i < self.slots().len() && self.slots()[i] is Some
    }

    /// How many volumes are bound.
    pub closed spec fn num_volumes(&self) -> nat {
        self.volumes@.len()
    }

    /// The mount point of volume `i`.
    pub closed spec fn mount_of(&self, i: int) -> Seq<char> {
        self.volumes@[i].mount_point@
    }

    /// The declared mode of volume `i`.
    pub closed spec fn mode_of(&self, i: int) -> NodeMode {
        self.volumes@[i].mode
    }

    /// Whether every descriptor slot is taken.
    pub open spec fn table_full(&self) -> bool {
        forall|j: int| 0 <= j < FD_SLOTS ==> self.fd_open(j)
    }

    /// A fresh registry: no volumes, no open descriptors.
    pub fn new() -> (r: VfsManager<V>)
        ensures
            r.wf(),
            r.num_volumes() == 0,
            forall|j: int| !r.fd_open(j),
    {
        let mut fds: Vec<Option<StreamOf<V>>> = Vec::new();
        let mut i: usize = 0;
        while i < FD_SLOTS
            invariant
                i <= FD_SLOTS,
                fds@.len() == i,
                forall|j: int| 0 <= j < i ==> fds@[j] is None,
            decreases FD_SLOTS - i,
        {
            fds.push(None);
            i += 1;
        }
        VfsManager { fds, volumes: Vec::new() }
    }

    /// Binds a backend at a mount point with a declared mode; its id is
    /// the next position.
    pub fn bind(&mut self, path: String, mode: NodeMode, v: V) -> (r: Result<(), VfsError>)
        requires
            old(self).wf(),
            old(self).num_volumes() < u32::MAX,
        ensures
            final(self).wf(),
            r is Ok,
            final(self).num_volumes() == old(self).num_volumes() + 1,
            final(self).mount_of(old(self).num_volumes() as int) == path@,
            final(self).mode_of(old(self).num_volumes() as int) == mode,
            forall|i: int|
                0 <= i < old(self).num_volumes() ==> final(self).mount_of(i) == old(
                    self,
                ).mount_of(i) && final(self).mode_of(i) == old(self).mode_of(i),
            forall|j: int| final(self).fd_open(j) == old(self).fd_open(j),
            final(self).slots() == old(self).slots(),
    {
        self.volumes.push(Resolver { volume: v, mount_point: path, mode });
        Ok(())
    }

    /// Describes every bound volume, in id order.
    pub fn volumes(&self) -> (r: Vec<VolumeInfo>)
        requires
            self.wf(),
        ensures
            r@.len() == self.num_volumes(),
            forall|i: int|
                0 <= i < r@.len() ==> {
                    &&& (#[trigger] r@[i]).id == i
                    &&& r@[i].mount_point@ == self.mount_of(i)
                    &&& r@[i].mode == self.mode_of(i)
                },
    {
        let mut out: Vec<VolumeInfo> = Vec::new();
        let mut i: usize = 0;
        while i < self.volumes.len()
            invariant
                self.wf(),
                i <= self.num_volumes(),
                out@.len() == i,
                forall|k: int|
                    0 <= k < i ==> {
                        &&& (#[trigger] out@[k]).id == k
                        &&& out@[k].mount_point@ == self.mount_of(k)
                        &&& out@[k].mode == self.mode_of(k)
                    },
            decreases self.volumes@.len() - i,
        {
            out.push(self.volumes[i].info(i as u32));
            i += 1;
        }
        out
    }

    /// The type and mode of a node inside a volume, `None` if the
    /// terminal component is absent; an unknown volume id is invalid.
    pub fn lookup(&self, vol_id: usize, path: &str) -> (r: Result<Option<NodeInfo>, VfsError>)
        requires
            self.wf(),
        ensures
            vol_id >= self.num_volumes() ==> r == Err::<Option<NodeInfo>, VfsError>(
                VfsError::InvalidInput,
            ),
            vol_id < self.num_volumes() && !path_ok(strip_root(path@)) ==> r == Err::<
                Option<NodeInfo>,
                VfsError,
            >(VfsError::InvalidInput),
    {
        if vol_id >= self.volumes.len() {
            return Err(VfsError::InvalidInput);
        }
        self.volumes[vol_id].lookup(path)
    }

    /// Creates a directory inside a volume; a read-only volume refuses
    /// with `PermissionDenied` whatever the path.
    pub fn mkdir(&self, vol_id: usize, path: &str) -> (r: Result<NodeInfo, VfsError>)
        requires
            self.wf(),
        ensures
            vol_id >= self.num_volumes() ==> r == Err::<NodeInfo, VfsError>(
                VfsError::InvalidInput,
            ),
            vol_id < self.num_volumes() && self.mode_of(vol_id as int) == NodeMode::Ro ==> r
                == Err::<NodeInfo, VfsError>(VfsError::PermissionDenied),
            vol_id < self.num_volumes() && self.mode_of(vol_id as int) != NodeMode::Ro
                && !path_ok(strip_root(path@)) ==> r == Err::<NodeInfo, VfsError>(
                VfsError::InvalidInput,
            ),
            vol_id < self.num_volumes() && self.mode_of(vol_id as int) != NodeMode::Ro && path_ok(
                strip_root(path@),
            ) && strip_root(path@).len() == 0 ==> r == Err::<NodeInfo, VfsError>(
                VfsError::InvalidInput,
            ),
            vol_id < self.num_volumes() && self.mode_of(vol_id as int) != NodeMode::Ro
                && ends_in_slash(strip_root(path@)) ==> r is Err,
    {
        if vol_id >= self.volumes.len() {
            return Err(VfsError::InvalidInput);
        }
        self.volumes[vol_id].mkdir(path)
    }

    /// The names of the children of a directory inside a volume.
    pub fn readdir(&self, vol_id: usize, path: &str) -> (r: Result<Vec<String>, VfsError>)
        requires
            self.wf(),
        ensures
            vol_id >= self.num_volumes() ==> r == Err::<Vec<String>, VfsError>(
                VfsError::InvalidInput,
            ),
            vol_id < self.num_volumes() && !path_ok(strip_root(path@)) ==> r == Err::<
                Vec<String>,
                VfsError,
            >(VfsError::InvalidInput),
    {
        if vol_id >= self.volumes.len() {
            return Err(VfsError::InvalidInput);
        }
        self.volumes[vol_id].readdir(path)
    }

    /// Opens a node inside a volume and stores the stream in the first
    /// free descriptor slot. With every slot taken the table is
    /// exhausted, whatever the volume or path.
    pub fn open(&mut self, vol_id: usize, path: &str, mode: NodeMode, create_new: bool) -> (r:
        Result<u32, VfsError>)
        requires
            old(self).wf(),
        ensures
            final(self).wf(),
            final(self).num_volumes() == old(self).num_volumes(),
            forall|i: int|
                0 <= i < old(self).num_volumes() ==> final(self).mount_of(i) == old(
                    self,
                ).mount_of(i) && final(self).mode_of(i) == old(self).mode_of(i),
            old(self).table_full() ==> r == Err::<u32, VfsError>(VfsError::ResourceExhausted)
                && final(self).slots() == old(self).slots(),
            !old(self).table_full() && vol_id < old(self).num_volumes() && !path_ok(
                strip_root(path@),
            ) ==> r == Err::<u32, VfsError>(VfsError::InvalidInput),
            !old(self).table_full() && vol_id < old(self).num_volumes() && path_ok(
                strip_root(path@),
            ) && strip_root(path@).len() == 0 ==> r == Err::<u32, VfsError>(
                VfsError::InvalidInput,
            ),
            !old(self).table_full() && vol_id < old(self).num_volumes() && ends_in_slash(
                strip_root(path@),
            ) ==> r is Err,
            match r {
                Ok(fd) => {
                    &&& fd < FD_SLOTS
                    &&& vol_id < old(self).num_volumes()
                    &&& !old(self).fd_open(fd as int)
                    &&& forall|j: int| 0 <= j < fd ==> old(self).fd_open(j)
                    &&& final(self).fd_open(fd as int)
                    &&& forall|j: int|
                        0 <= j < FD_SLOTS && j != fd ==> final(self).slots()[j] == old(
                            self,
                        ).slots()[j]
                },
                Err(e) => {
                    &&& final(self).slots() == old(self).slots()
                    &&& (!old(self).table_full() && vol_id >= old(self).num_volumes() ==> e
                        == VfsError::InvalidInput)
                },
            },
    {
        let mut idx: usize = 0;
        let mut found = false;
        while idx < FD_SLOTS && !found
            invariant
                self.wf(),
                idx <= FD_SLOTS,
                !found ==> forall|j: int| 0 <= j < idx ==> self.fd_open(j),
                found ==> idx < FD_SLOTS && !self.fd_open(idx as int) && (forall|j: int|
                    0 <= j < idx ==> self.fd_open(j)),
            decreases FD_SLOTS - idx + (if found {
                0int
            } else {
                1int
            }),
        {
            if self.fds[idx].is_none() {
                found = true;
            } else {
                idx += 1;
            }
        }
        if !found {
            return Err(VfsError::ResourceExhausted);
        }
        if vol_id >= self.volumes.len() {
            return Err(VfsError::InvalidInput);
        }
        let stream = match self.volumes[vol_id].open(path, mode, create_new) {
            Ok(s) => s,
            Err(e) => {
                return Err(e);
            },
        };
        self.fds.set(idx, Some(stream));
        Ok(idx as u32)
    }

    /// Releases the stream of a descriptor and frees its slot; an
    /// unassigned descriptor is invalid.
    pub fn close(&mut self, fd: u32) -> (r: Result<(), VfsError>)
        requires
            old(self).wf(),
        ensures
            final(self).wf(),
            final(self).num_volumes() == old(self).num_volumes(),
            forall|i: int|
                0 <= i < old(self).num_volumes() ==> final(self).mount_of(i) == old(
                    self,
                ).mount_of(i) && final(self).mode_of(i) == old(self).mode_of(i),
            fd >= FD_SLOTS || !old(self).fd_open(fd as int) ==> r == Err::<(), VfsError>(
                VfsError::InvalidInput,
            ) && final(self).slots() == old(self).slots(),
            fd < FD_SLOTS && old(self).fd_open(fd as int) ==> !final(self).fd_open(fd as int) && (
            forall|j: int|
                0 <= j < FD_SLOTS && j != fd ==> final(self).slots()[j] == old(self).slots()[j]),
    {
        if fd >= FD_SLOTS as u32 {
            return Err(VfsError::InvalidInput);
        }
        let idx = fd as usize;
        let mut taken: Option<StreamOf<V>> = None;
        self.fds.set_and_swap(idx, &mut taken);
        match taken {
            Some(mut stream) => stream.close(),
            None => {
                proof {
                    assert(self.fds@ =~= old(self).fds@);
                }
                Err(VfsError::InvalidInput)
            },
        }
    }

    /// Reads at most `len` bytes at `position` from the stream of a
    /// descriptor; an unassigned descriptor is invalid.
    pub fn read(&mut self, fd: u32, len: usize, position: u64) -> (r: Result<Vec<u8>, VfsError>)
        requires
            old(self).wf(),
        ensures
            final(self).wf(),
            final(self).num_volumes() == old(self).num_volumes(),
            forall|i: int|
                0 <= i < old(self).num_volumes() ==> final(self).mount_of(i) == old(
                    self,
                ).mount_of(i) && final(self).mode_of(i) == old(self).mode_of(i),
            forall|j: int| final(self).fd_open(j) == old(self).fd_open(j),
            forall|j: int|
                0 <= j < FD_SLOTS && j != fd ==> final(self).slots()[j] == old(self).slots()[j],
            fd >= FD_SLOTS || !old(self).fd_open(fd as int) ==> r == Err::<Vec<u8>, VfsError>(
                VfsError::InvalidInput,
            ) && final(self).slots() == old(self).slots(),
    {
        if fd >= FD_SLOTS as u32 {
            return Err(VfsError::InvalidInput);
        }
        let idx = fd as usize;
        let mut taken: Option<StreamOf<V>> = None;
        self.fds.set_and_swap(idx, &mut taken);
        match taken {
            Some(mut stream) => {
                let r = stream.read(len, position);
                let mut back = Some(stream);
                self.fds.set_and_swap(idx, &mut back);
                r
            },
            None => {
                let mut back: Option<StreamOf<V>> = None;
                self.fds.set_and_swap(idx, &mut back);
                proof {
                    assert(self.fds@ =~= old(self).fds@);
                }
                Err(VfsError::InvalidInput)
            },
        }
    }

    /// Writes `buf` at `position` to the stream of a descriptor and
    /// returns how many bytes were written; an unassigned descriptor is
    /// invalid.
    pub fn write(&mut self, fd: u32, buf: &[u8], position: u64) -> (r: Result<u64, VfsError>)
        requires
            old(self).wf(),
        ensures
            final(self).wf(),
            final(self).num_volumes() == old(self).num_volumes(),
            forall|i: int|
                0 <= i < old(self).num_volumes() ==> final(self).mount_of(i) == old(
                    self,
                ).mount_of(i) && final(self).mode_of(i) == old(self).mode_of(i),
            forall|j: int| final(self).fd_open(j) == old(self).fd_open(j),
            forall|j: int|
                0 <= j < FD_SLOTS && j != fd ==> final(self).slots()[j] == old(self).slots()[j],
            fd >= FD_SLOTS || !old(self).fd_open(fd as int) ==> r == Err::<u64, VfsError>(
                VfsError::InvalidInput,
            ) && final(self).slots() == old(self).slots(),
    {
        if fd >= FD_SLOTS as u32 {
            return Err(VfsError::InvalidInput);
        }
        let idx = fd as usize;
        let mut taken: Option<StreamOf<V>> = None;
        self.fds.set_and_swap(idx, &mut taken);
        match taken {
            Some(mut stream) => {
                let r = stream.write(buf, position);
                let mut back = Some(stream);
                self.fds.set_and_swap(idx, &mut back);
                r
            },
            None => {
                let mut back: Option<StreamOf<V>> = None;
                self.fds.set_and_swap(idx, &mut back);
                proof {
                    assert(self.fds@ =~= old(self).fds@);
                }
                Err(VfsError::InvalidInput)
            },
        }
    }
}

} // verus!
