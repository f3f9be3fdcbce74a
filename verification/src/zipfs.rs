//! The read-only archive backend: on bind, the archive's entries are
//! indexed into an in-memory tree built purely from their path components
//! (the root is synthesized), and every file's bytes are inflated into
//! that tree. Opening yields an in-memory stream; every write or
//! directory creation is refused.

use crate::file::File;
use crate::memfs::{
    create_all_post, file_at, fs_set, is_dir_in, lemma_create_dir_all_law, FsEntry, FsMap, FsPath,
    MemFS,
};
use crate::node::FileType;
use crate::normpath::{
    join_path, join_slash, lemma_abs_norm, lemma_split_no_slash, plain_seg, seg_is_dot,
    seg_is_dotdot, seg_is_empty, split_path, split_slash,
};
use crate::vfsdo::{NodeMode, NodeType};
use crate::vfsops::{INode, Stream, VfsError, VfsVolume};
use std::io::Cursor;
use std::sync::Arc;
use vstd::prelude::*;
use vstd::seq_lib::*;

verus! {

#[verifier::external_type_specification]
#[verifier::external_body]
#[verifier::reject_recursive_types(T)]
pub struct ExCursor<T>(Cursor<T>);

#[verifier::external_type_specification]
#[verifier::external_body]
#[verifier::reject_recursive_types(R)]
pub struct ExZipArchive<R>(zip::ZipArchive<R>);

/// The bytes an opened archive was read from.
pub uninterp spec fn zip_source(ar: zip::ZipArchive<Cursor<Vec<u8>>>) -> Seq<u8>;

/// The entry list that parsing an archive's bytes yields: for each entry
/// its name, whether it is a directory, and its inflated bytes.
pub uninterp spec fn zip_parse(bytes: Seq<u8>) -> Seq<(Seq<char>, bool, Seq<u8>)>;

/// Whether the bytes parse as an archive at all.
pub uninterp spec fn zip_ok(bytes: Seq<u8>) -> bool;

/// Whether entry `i` of the archive in `bytes` can be read back whole
/// (its local header is sound and its data inflates).
pub uninterp spec fn zip_entry_readable(bytes: Seq<u8>, i: int) -> bool;

/// Relies on zip::ZipArchive::new: reads the central directory of the
/// archive held in the byte buffer; whether that succeeds, and the entry
/// list it yields, depend on the bytes alone.
#[verifier::external_body]
fn zip_open(bytes: Vec<u8>) -> (r: Result<zip::ZipArchive<Cursor<Vec<u8>>>, VfsError>)
    ensures
        r is Ok <==> zip_ok(bytes@),
        r matches Ok(ar) ==> zip_source(ar) == bytes@,
        r matches Err(e) ==> e == VfsError::InvalidInput,
{
    zip::ZipArchive::new(Cursor::new(bytes)).map_err(|_| VfsError::InvalidInput)
}

/// Relies on zip::ZipArchive::len: the number of entries in the archive.
#[verifier::external_body]
fn zip_len(ar: &zip::ZipArchive<Cursor<Vec<u8>>>) -> (r: usize)
    ensures
        r == zip_parse(zip_source(*ar)).len(),
{
    ar.len()
}

/// Relies on zip::ZipArchive::by_index and the entry accessors name,
/// is_dir, is_file and Read::read_to_end: returns the name, kind and
/// inflated bytes of entry `i`, leaving the archive as read from the same
/// bytes; success depends on those bytes alone.
#[verifier::external_body]
fn zip_entry(ar: &mut zip::ZipArchive<Cursor<Vec<u8>>>, i: usize) -> (r: Result<
    (String, bool, Vec<u8>),
    VfsError,
>)
    requires
        i < zip_parse(zip_source(*old(ar))).len(),
    ensures
        zip_source(*final(ar)) == zip_source(*old(ar)),
        r is Ok <==> zip_entry_readable(zip_source(*old(ar)), i as int),
        r matches Ok(e) ==> (e.0@, e.1, e.2@) == zip_parse(zip_source(*old(ar)))[i as int],
        r matches Err(e) ==> e == VfsError::InvalidInput,
{
    let mut f = match ar.by_index(i) {
        Ok(f) => f,
        Err(_) => return Err(VfsError::InvalidInput),
    };
    let name = f.name().to_owned();
    let is_dir = f.is_dir();
    let mut data = Vec::new();
    if f.is_file() {
        if std::io::Read::read_to_end(&mut f, &mut data).is_err() {
            return Err(VfsError::InvalidInput);
        }
    }
    Ok((name, is_dir, data))
}

/// The path components of an archive entry name: split on `/`, keeping
/// only plain components — empty ones, `.` and `..` are discarded rather
/// than interpreted.
pub open spec fn zip_entry_segs(name: Seq<char>) -> FsPath {
    split_slash(name).filter(|s: Seq<char>| plain_seg(s))
}

/// One archive entry added to the tree: nothing for an entry whose name
/// has no plain component; for a directory, it and its ancestors are
/// ensured; for a file, its ancestors are ensured and the file is set.
pub open spec fn add_zip_entry(m: FsMap, name: Seq<char>, dir: bool, data: Seq<u8>) -> FsMap {
    let segs = zip_entry_segs(name);
    if segs.len() == 0 {
        m
    } else if dir {
        create_all_post(m, segs)
    } else {
        fs_set(create_all_post(m, segs.drop_last()), segs, FsEntry::File(data))
    }
}

/// The tree an entry list builds, entry by entry in order, over an
/// initial tree.
pub open spec fn zip_tree(m0: FsMap, entries: Seq<(Seq<char>, bool, Seq<u8>)>) -> FsMap
    decreases entries.len(),
{
    if entries.len() == 0 {
        m0
    } else {
        add_zip_entry(
            zip_tree(m0, entries.drop_last()),
            entries.last().0,
            entries.last().1,
            entries.last().2,
        )
    }
}

/// The tree holding only its root directory.
pub open spec fn empty_tree() -> FsMap {
    Map::<FsPath, FsEntry>::empty().insert(Seq::empty(), FsEntry::Dir)
}

/// The absolute path string of a segment sequence.
fn abs_path_of(segs: &Vec<String>) -> (r: String)
    ensures
        r@ == seq!['/'] + join_slash(segs.deep_view()),
{
    proof {
        reveal_strlit("/");
    }
    let mut s = String::from_str("/");
    let joined = join_path(segs);
    s.append(joined.as_str());
    proof {
        assert(s@ =~= seq!['/'] + join_slash(segs.deep_view()));
    }
    s
}

/// Adds one archive entry to the tree, exactly as [`add_zip_entry`]
/// describes.
fn add_entry(fs: &mut MemFS, name: &str, dir: bool, data: Vec<u8>)
    requires
        old(fs).wf(),
    ensures
        final(fs).wf(),
        final(fs)@ == add_zip_entry(old(fs)@, name@, dir, data@),
{
    let raw = split_path(name);
    let mut segs: Vec<String> = Vec::new();
    let ghost pred = |s: Seq<char>| plain_seg(s);
    let mut i: usize = 0;
    proof {
        reveal(Seq::filter);
        assert(raw.deep_view().take(0) =~= Seq::<Seq<char>>::empty());
        assert(segs.deep_view() =~= raw.deep_view().take(0).filter(pred));
    }
    proof {
        lemma_split_no_slash(name@);
    }
    while i < raw.len()
        invariant
            i <= raw@.len(),
            pred == (|s: Seq<char>| plain_seg(s)),
            raw.deep_view() == split_slash(name@),
            segs.deep_view() == raw.deep_view().take(i as int).filter(pred),
            forall|k: int| 0 <= k < segs.deep_view().len() ==> plain_seg(
                #[trigger] segs.deep_view()[k],
            ),
            forall|k: int, j: int|
                0 <= k < segs.deep_view().len() && 0 <= j < segs.deep_view()[k].len()
                    ==> #[trigger] segs.deep_view()[k][j] != '/',
        decreases raw@.len() - i,
    {
        let p = &raw[i];
        let keep = !seg_is_empty(p) && !seg_is_dot(p) && !seg_is_dotdot(p);
        proof {
            reveal(Seq::filter);
            assert(raw.deep_view().take(i + 1).drop_last() =~= raw.deep_view().take(i as int));
            assert(raw.deep_view().take(i + 1).last() == raw.deep_view()[i as int]);
            assert(keep == pred(raw.deep_view()[i as int]));
        }
        if keep {
            let ghost pre = segs.deep_view();
            segs.push(p.clone());
            proof {
                assert(segs.deep_view() =~= pre.push(raw.deep_view()[i as int]));
                lemma_split_no_slash(name@);
            }
        }
        i += 1;
    }
    proof {
        assert(raw.deep_view().take(raw@.len() as int) =~= raw.deep_view());
        assert(segs.deep_view() == zip_entry_segs(name@));
    }
    if segs.len() == 0 {
        return ;
    }
    let ghost gs = segs.deep_view();
    if dir {
        let path_str = abs_path_of(&segs);
        proof {
            lemma_abs_norm(gs);
        }
        match fs.create_dir_all(path_str.as_str()) {
            Ok(()) => {},
            Err(_) => {
                proof {
                    assert(false);
                }
            },
        }
    } else {
        let mut parent = clone_parent(&segs);
        let parent_str = abs_path_of(&parent);
        let path_str = abs_path_of(&segs);
        proof {
            lemma_abs_norm(gs);
            assert(parent.deep_view() == gs.drop_last());
            assert forall|k: int| 0 <= k < gs.drop_last().len() implies plain_seg(
                #[trigger] gs.drop_last()[k],
            ) by {
                assert(gs.drop_last()[k] == gs[k]);
            }
            assert forall|k: int, j: int|
                0 <= k < gs.drop_last().len() && 0 <= j < gs.drop_last()[k].len() implies #[trigger] gs.drop_last()[k][j]
                != '/' by {
                assert(gs.drop_last()[k] == gs[k]);
            }
            lemma_abs_norm(gs.drop_last());
        }
        let ghost m0 = fs@;
        proof {
            fs.lemma_wf();
        }
        match fs.create_dir_all(parent_str.as_str()) {
            Ok(()) => {},
            Err(_) => {
                proof {
                    assert(false);
                }
            },
        }
        let ghost m1 = fs@;
        proof {
            assert(m1 == create_all_post(m0, gs.drop_last()));
            lemma_create_dir_all_law(m0, gs.drop_last());
            assert(is_dir_in(m1, gs.drop_last().take(gs.drop_last().len() as int)));
            assert(gs.drop_last().take(gs.drop_last().len() as int) =~= gs.drop_last());
        }
        let handle = match fs.create_file(path_str.as_str()) {
            Ok(f) => f,
            Err(_) => {
                proof {
                    assert(false);
                }
                return ;
            },
        };
        let ghost m2 = fs@;
        proof {
            assert(m2 == fs_set(m1, gs, FsEntry::File(Seq::empty())));
            assert(Seq::<u8>::empty() + data@ =~= data@);
        }
        match handle.write_all(fs, data.as_slice()) {
            Ok(()) => {
                proof {
                    assert(m2[gs].data() =~= Seq::<u8>::empty());
                    assert(fs@ == m2.insert(gs, FsEntry::File(data@)));
                    assert(fs@ =~= fs_set(m1, gs, FsEntry::File(data@)));
                }
            },
            Err(_) => {
                proof {
                    assert(false);
                }
            },
        }
    }
}

/// The segments of the parent path: all but the last.
fn clone_parent(segs: &Vec<String>) -> (r: Vec<String>)
    requires
        segs@.len() > 0,
    ensures
        r.deep_view() == segs.deep_view().drop_last(),
{
    let mut out: Vec<String> = Vec::new();
    let mut i: usize = 0;
    while i < segs.len() - 1
        invariant
            segs@.len() > 0,
            i <= segs@.len() - 1,
            out.deep_view() == segs.deep_view().take(i as int),
        decreases segs@.len() - 1 - i,
    {
        let ghost pre = out.deep_view();
        out.push(segs[i].clone());
        proof {
            assert(out.deep_view() =~= pre.push(segs.deep_view()[i as int]));
            assert(out.deep_view() =~= segs.deep_view().take(i + 1));
        }
        i += 1;
    }
    proof {
        assert(segs.deep_view().take(segs@.len() - 1) =~= segs.deep_view().drop_last());
    }
    out
}

/// An archive volume: the tree its entries build, shared by its nodes.
#[derive(Debug)]
pub struct ZipVolume {
    tree: Arc<MemFS>,
}

impl ZipVolume {
    /// The tree of the archive.
    pub closed spec fn view(&self) -> FsMap {
        self.tree@
    }

    /// The tree is well formed.
    pub closed spec fn wf(&self) -> bool {
        self.tree.wf()
    }
}

/// The abstract value of a list of raw archive entries.
pub open spec fn raw_entries_view(s: Seq<(String, bool, Vec<u8>)>) -> Seq<(Seq<char>, bool, Seq<u8>)> {
    s.map_values(|e: (String, bool, Vec<u8>)| (e.0@, e.1, e.2@))
}

/// Builds an archive volume from a plain list of entries: each entry's
/// name is split into components, its missing ancestors are synthesized
/// as directories, and files carry their bytes.
pub fn volume_from_entries(entries: Vec<(String, bool, Vec<u8>)>) -> (r: ZipVolume)
    ensures
        r.wf(),
        r@ == zip_tree(empty_tree(), raw_entries_view(entries@)),
{
    let ghost listed = raw_entries_view(entries@);
    let mut fs = MemFS::new();
    proof {
        assert(fs@ =~= empty_tree());
        assert(listed.take(0) =~= Seq::<(Seq<char>, bool, Seq<u8>)>::empty());
    }
    let mut entries = entries;
    let mut i: usize = 0;
    let n = entries.len();
    while i < n
        invariant
            fs.wf(),
            n == entries@.len(),
            listed == raw_entries_view(entries@),
            i <= n,
            fs@ == zip_tree(empty_tree(), listed.take(i as int)),
        decreases n - i,
    {
        let entry = &entries[i];
        let data = vstd::slice::slice_to_vec(entry.2.as_slice());
        add_entry(&mut fs, entry.0.as_str(), entry.1, data);
        proof {
            assert(listed.take(i + 1).drop_last() =~= listed.take(i as int));
            assert(listed.take(i + 1).last() == listed[i as int]);
            assert(listed[i as int] == (entries@[i as int].0@, entries@[i as int].1, entries@[i as int].2@));
        }
        i += 1;
    }
    proof {
        assert(listed.take(n as int) =~= listed);
    }
    ZipVolume { tree: Arc::new(fs) }
}

/// Opens an archive held in memory as a read-only volume, indexing and
/// inflating every entry. Binding succeeds exactly when the bytes parse
/// as an archive and every entry can be read back.
pub fn volume(bytes: Vec<u8>) -> (r: Result<ZipVolume, VfsError>)
    ensures
        r is Ok <==> (zip_ok(bytes@) && (forall|i: int|
            0 <= i < zip_parse(bytes@).len() ==> zip_entry_readable(bytes@, i))),
        r matches Ok(v) ==> v.wf() && v@ == zip_tree(empty_tree(), zip_parse(bytes@)),
        r matches Err(e) ==> e == VfsError::InvalidInput,
{
    let ghost src = bytes@;
    let ghost parsed = zip_parse(bytes@);
    let mut ar = match zip_open(bytes) {
        Ok(a) => a,
        Err(e) => {
            return Err(e);
        },
    };
    let n = zip_len(&ar);
    let mut collected: Vec<(String, bool, Vec<u8>)> = Vec::new();
    proof {
        assert(raw_entries_view(collected@) =~= parsed.take(0));
    }
    let mut i: usize = 0;
    let mut failed = false;
    while i < n && !failed
        invariant
            n == parsed.len(),
            parsed == zip_parse(src),
            zip_source(ar) == src,
            i <= n,
            failed ==> exists|j: int|
                0 <= j < parsed.len() && !zip_entry_readable(src, j),
            !failed ==> {
                &&& collected@.len() == i
                &&& raw_entries_view(collected@) == parsed.take(i as int)
                &&& forall|j: int| 0 <= j < i ==> zip_entry_readable(src, j)
            },
        decreases n - i + (if failed {
            0int
        } else {
            1int
        }),
    {
        match zip_entry(&mut ar, i) {
            Ok(entry) => {
                let ghost pre = collected@;
                collected.push(entry);
                proof {
                    assert(raw_entries_view(collected@) =~= raw_entries_view(pre).push(
                        (collected@[i as int].0@, collected@[i as int].1, collected@[i as int].2@),
                    ));
                    assert(raw_entries_view(collected@) =~= parsed.take(i + 1));
                }
                i += 1;
            },
            Err(_) => {
                failed = true;
            },
        }
    }
    if failed {
        return Err(VfsError::InvalidInput);
    }
    proof {
        assert(parsed.take(n as int) =~= parsed);
    }
    let vol = volume_from_entries(collected);
    Ok(vol)
}

/// One node of an archive volume, identified by its path in the tree; the
/// empty path is the volume root.
#[derive(Debug)]
pub struct ZipNode {
    tree: Arc<MemFS>,
    path: Vec<String>,
}

/// The parent of a path; the root is its own parent.
pub open spec fn parent_of(p: FsPath) -> FsPath {
    if p.len() == 0 {
        p
    } else {
        p.drop_last()
    }
}

/// `..` applied `n` times.
pub open spec fn iter_parent(p: FsPath, n: nat) -> FsPath
    decreases n,
{
    if n == 0 {
        p
    } else {
        parent_of(iter_parent(p, (n - 1) as nat))
    }
}

/// The containment law: resolving `..` any number of times from a node
/// stays within that node's path, and from the volume root always yields
/// the root itself.
pub proof fn lemma_dotdot_containment(p: FsPath, n: nat)
    ensures
        iter_parent(p, n).len() <= p.len(),
        iter_parent(p, n) == p.take(iter_parent(p, n).len() as int),
        p.len() == 0 ==> iter_parent(p, n) == p,
    decreases n,
{
    if n == 0 {
        assert(p.take(p.len() as int) =~= p);
    } else {
        lemma_dotdot_containment(p, (n - 1) as nat);
        let q = iter_parent(p, (n - 1) as nat);
        if q.len() > 0 {
            assert(q.drop_last() =~= p.take(q.len() - 1));
        }
    }
}

impl ZipNode {
    /// The tree of the volume this node belongs to.
    pub closed spec fn view(&self) -> FsMap {
        self.tree@
    }

    /// The node's path; the root is the empty path.
    pub closed spec fn path_view(&self) -> FsPath {
        self.path.deep_view()
    }

    /// The node is the root or present in a well-formed tree.
    pub open spec fn wf(&self) -> bool {
        crate::memfs::wf_map(self@) && (self.path_view().len() == 0 || self@.contains_key(
            self.path_view(),
        ))
    }

    /// The tree is well formed at the representation level.
    pub closed spec fn tree_wf(&self) -> bool {
        self.tree.wf()
    }

    pub open spec fn is_file_node(&self) -> bool {
        self.path_view().len() > 0 && self@.contains_key(self.path_view()) && self@[self.path_view()] is File
    }
}

impl VfsVolume for ZipVolume {
    type INode = ZipNode;

    fn root(&self) -> (r: Result<ZipNode, VfsError>)
        ensures
            self.wf() ==> (r matches Ok(n) && n@ == self@ && n.path_view().len() == 0 && n.wf()
                && n.tree_wf()),
    {
        proof {
            if self.wf() {
                self.tree.lemma_wf();
            }
        }
        Ok(ZipNode { tree: Arc::clone(&self.tree), path: Vec::new() })
    }
}

impl INode for ZipNode {
    type Stream = ZipStream;

    fn mode(&self) -> (r: (NodeType, NodeMode))
        ensures
            r.1 == NodeMode::Ro,
            self.tree_wf() && self.wf() ==> (r.0 == NodeType::File <==> self.is_file_node()),
    {
        if self.path.len() == 0 {
            return (NodeType::Dir, NodeMode::Ro);
        }
        match self.tree.node_kind(&self.path) {
            Some(FileType::File) => (NodeType::File, NodeMode::Ro),
            _ => (NodeType::Dir, NodeMode::Ro),
        }
    }

    fn open(&self, name: &str, mode: NodeMode, create_new: bool) -> (r: Result<
        ZipStream,
        VfsError,
    >)
        ensures
            mode != NodeMode::Ro ==> r == Err::<ZipStream, VfsError>(VfsError::PermissionDenied),
            self.tree_wf() && self.wf() && mode == NodeMode::Ro && self.is_file_node() ==> r
                == Err::<ZipStream, VfsError>(VfsError::PermissionDenied),
            self.tree_wf() && self.wf() && mode == NodeMode::Ro && !self.is_file_node() ==> match r {
                Ok(s) => file_at(self@, self.path_view().push(name@)) && s@ == self@[self.path_view().push(name@)].data(),
                Err(e) => e == VfsError::InvalidInput && !file_at(
                    self@,
                    self.path_view().push(name@),
                ),
            },
    {
        match mode {
            NodeMode::Ro => {},
            _ => {
                return Err(VfsError::PermissionDenied);
            },
        }
        if self.path.len() > 0 {
            match self.tree.node_kind(&self.path) {
                Some(FileType::File) => {
                    return Err(VfsError::PermissionDenied);
                },
                _ => {},
            }
        }
        let mut child = crate::memfs::clone_segments(&self.path);
        child.push(String::from_str(name));
        proof {
            assert(child.deep_view() =~= self.path_view().push(name@));
        }
        match self.tree.get_file_data(&child) {
            Some(data) => Ok(ZipStream { data }),
            None => Err(VfsError::InvalidInput),
        }
    }

    fn mkdir(&mut self, name: &str) -> (r: Result<ZipNode, VfsError>)
        ensures
            r == Err::<ZipNode, VfsError>(VfsError::PermissionDenied),
            *final(self) == *old(self),
    {
        Err(VfsError::PermissionDenied)
    }

    fn lookup(&self, name: &str) -> (r: Result<Option<ZipNode>, VfsError>)
        ensures
            self.tree_wf() && self.wf() && !self.is_file_node() ==> match r {
                Ok(Some(n)) => {
                    &&& n@ == self@
                    &&& n.wf()
                    &&& n.tree_wf()
                    &&& (name@ == "."@ ==> n.path_view() == self.path_view())
                    &&& (name@ == ".."@ ==> n.path_view() == parent_of(self.path_view()))
                    &&& (name@ != "."@ && name@ != ".."@ ==> n.path_view() == self.path_view().push(
                        name@,
                    ) && self@.contains_key(n.path_view()))
                },
                Ok(None) => name@ != "."@ && name@ != ".."@ && !self@.contains_key(
                    self.path_view().push(name@),
                ),
                Err(_) => false,
            },
            self.tree_wf() && self.wf() && self.is_file_node() ==> r == Err::<
                Option<ZipNode>,
                VfsError,
            >(VfsError::PermissionDenied),
    {
        proof {
            reveal_strlit(".");
            reveal_strlit("..");
        }
        if self.path.len() > 0 {
            match self.tree.node_kind(&self.path) {
                Some(FileType::File) => {
                    return Err(VfsError::PermissionDenied);
                },
                _ => {},
            }
        }
        let n = name.unicode_len();
        if n == 1 && name.get_char(0) == '.' {
            proof {
                assert(name@ =~= "."@);
            }
            let here = crate::memfs::clone_segments(&self.path);
            return Ok(Some(ZipNode { tree: Arc::clone(&self.tree), path: here }));
        }
        if n == 2 && name.get_char(0) == '.' && name.get_char(1) == '.' {
            proof {
                assert(name@ =~= ".."@);
            }
            let mut up = crate::memfs::clone_segments(&self.path);
            if up.len() > 0 {
                let ghost pre = up.deep_view();
                up.pop();
                proof {
                    assert(up.deep_view() =~= pre.drop_last());
                }
            }
            proof {
                if self.wf() && self.path_view().len() > 0 {
                    crate::memfs::lemma_ancestor_present(
                        self@,
                        self.path_view(),
                        self.path_view().len() - 1,
                    );
                    assert(self.path_view().take(self.path_view().len() - 1)
                        =~= self.path_view().drop_last());
                }
            }
            return Ok(Some(ZipNode { tree: Arc::clone(&self.tree), path: up }));
        }
        proof {
            assert(name@ != "."@ && name@ != ".."@) by {
                assert("."@.len() == 1 && ".."@.len() == 2);
            }
        }
        let mut child = crate::memfs::clone_segments(&self.path);
        child.push(String::from_str(name));
        proof {
            assert(child.deep_view() =~= self.path_view().push(name@));
        }
        match self.tree.node_kind(&child) {
            Some(_) => Ok(Some(ZipNode { tree: Arc::clone(&self.tree), path: child })),
            None => Ok(None),
        }
    }

    fn read_dir(&self) -> (r: Result<Vec<String>, VfsError>)
        ensures
            self.tree_wf() && self.wf() && !self.is_file_node() ==> match r {
                Ok(v) => {
                    &&& forall|k: int|
                        0 <= k < v.deep_view().len() ==> self@.contains_key(
                            self.path_view().push(#[trigger] v.deep_view()[k]),
                        )
                    &&& forall|nm: Seq<char>|
                        #[trigger] self@.contains_key(self.path_view().push(nm)) ==> exists|k: int|
                            0 <= k < v.deep_view().len() && v.deep_view()[k] == nm
                    &&& forall|k1: int, k2: int|
                        0 <= k1 < k2 < v.deep_view().len() ==> v.deep_view()[k1]
                            != v.deep_view()[k2]
                },
                Err(_) => false,
            },
            self.tree_wf() && self.wf() && self.is_file_node() ==> r == Err::<
                Vec<String>,
                VfsError,
            >(VfsError::PermissionDenied),
    {
        if self.path.len() > 0 {
            match self.tree.node_kind(&self.path) {
                Some(FileType::File) => {
                    return Err(VfsError::PermissionDenied);
                },
                _ => {},
            }
        }
        Ok(self.tree.read_dir(&self.path))
    }
}

/// An open stream into one inflated archive file.
#[derive(Debug)]
pub struct ZipStream {
    data: Vec<u8>,
}

impl ZipStream {
    /// The file's bytes.
    pub closed spec fn view(&self) -> Seq<u8> {
        self.data@
    }
}

impl Stream for ZipStream {
    fn read(&mut self, len: usize, position: u64) -> (r: Result<Vec<u8>, VfsError>)
        ensures
            *final(self) == *old(self),
            r matches Ok(v) && ({
                let start = if position <= old(self)@.len() {
                    position as int
                } else {
                    old(self)@.len() as int
                };
                let end = if start + len <= old(self)@.len() {
                    start + len
                } else {
                    old(self)@.len() as int
                };
                v@ == old(self)@.subrange(start, end)
            }),
    {
        let total = self.data.len();
        let start = if position <= total as u64 {
            position as usize
        } else {
            total
        };
        let end = if len <= total - start {
            start + len
        } else {
            total
        };
        Ok(vstd::slice::slice_to_vec(vstd::slice::slice_subrange(self.data.as_slice(), start, end)))
    }

    fn write(&mut self, buf: &[u8], position: u64) -> (r: Result<u64, VfsError>)
        ensures
            *final(self) == *old(self),
            r == Err::<u64, VfsError>(VfsError::PermissionDenied),
    {
        Err(VfsError::PermissionDenied)
    }

    fn close(&mut self) -> (r: Result<(), VfsError>)
        ensures
            r == Ok::<(), VfsError>(()),
    {
        Ok(())
    }
}

} // verus!
