//! The in-process authoritative file tree: a mutable tree of directory and
//! file nodes held entirely in memory, addressed by normalized absolute
//! paths.
//!
//! The tree is modelled as a finite map from normalized segment paths to
//! entries (`FsEntry::Dir` or `FsEntry::File(data)`); the root is the empty
//! path. The map always contains the root as a directory, and the parent of
//! every entry is present as a directory.

use crate::error::{ErrView, Error};
use crate::file::File;
use crate::node::{FileType, Node};
use crate::normpath::{
    clean_parts, clean_segs, is_abs, split_path, split_slash, starts_with_slash,
};
use vstd::prelude::*;

verus! {

/// Abstract value of one tree node: a directory, or a file with its
/// contents.
pub enum FsEntry {
    Dir,
    File(Seq<u8>),
}

/// A normalized path: the sequence of its segments. The root is the empty
/// sequence.
pub type FsPath = Seq<Seq<char>>;

/// The abstract file tree: a map from normalized paths to entries.
pub type FsMap = Map<FsPath, FsEntry>;

/// The normalized segment sequence of a path string.
pub open spec fn norm_segs(s: Seq<char>) -> FsPath {
    clean_segs(split_slash(s))
}

/// `p` is a (possibly equal) prefix of `q`.
pub open spec fn is_path_prefix(p: FsPath, q: FsPath) -> bool {
    p.len() <= q.len() && q.take(p.len() as int) == p
}

/// A well-formed tree map: the root is present as a directory, and every
/// non-root entry has its parent present as a directory.
pub open spec fn wf_map(m: FsMap) -> bool {
    &&& m.contains_key(Seq::empty())
    &&& m[Seq::empty()] is Dir
    &&& forall|p: FsPath|
        #[trigger] m.contains_key(p) && p.len() > 0 ==> m.contains_key(p.drop_last())
            && m[p.drop_last()] is Dir
}

/// Replaces the entry at `p` by `e`, discarding everything below `p`.
pub open spec fn fs_set(m: FsMap, p: FsPath, e: FsEntry) -> FsMap {
    Map::new(
        |k: FsPath| (m.contains_key(k) && !is_path_prefix(p, k)) || k == p,
        |k: FsPath| if k == p { e } else { m[k] },
    )
}

/// The data of a file entry; a directory has none.
impl FsEntry {
    pub open spec fn data(self) -> Seq<u8> {
        match self {
            FsEntry::File(d) => d,
            FsEntry::Dir => Seq::empty(),
        }
    }
}

/// The index of the first path prefix of `segs`, from `i` on, that is not
/// present in `m`; `segs.len()` if the whole path resolves.
pub open spec fn walk_fail_from(m: FsMap, segs: FsPath, i: int) -> int
    decreases segs.len() - i,
{
    if i < 0 || i >= segs.len() {
        segs.len() as int
    } else if !m.contains_key(segs.take(i + 1)) {
        i
    } else {
        walk_fail_from(m, segs, i + 1)
    }
}

/// The index of the first segment of `segs` that does not resolve in `m`.
pub open spec fn walk_fail_idx(m: FsMap, segs: FsPath) -> int {
    walk_fail_from(m, segs, 0)
}

/// If all prefixes up to `i` resolve and the one at `i` does not, the walk
/// fails exactly at `i`.
pub proof fn lemma_walk_fail_at(m: FsMap, segs: FsPath, i: int)
    requires
        0 <= i < segs.len(),
        forall|j: int| 0 <= j < i ==> m.contains_key(#[trigger] segs.take(j + 1)),
        !m.contains_key(segs.take(i + 1)),
    ensures
        walk_fail_idx(m, segs) == i,
{
    lemma_walk_fail_at_from(m, segs, i, 0);
}

proof fn lemma_walk_fail_at_from(m: FsMap, segs: FsPath, i: int, l: int)
    requires
        0 <= l <= i < segs.len(),
        forall|j: int| 0 <= j < i ==> m.contains_key(#[trigger] segs.take(j + 1)),
        !m.contains_key(segs.take(i + 1)),
    ensures
        walk_fail_from(m, segs, l) == i,
    decreases i - l,
{
    if l < i {
        lemma_walk_fail_at_from(m, segs, i, l + 1);
    }
}

/// In a well-formed map, every prefix of a present path is present, and
/// proper prefixes are directories.
pub proof fn lemma_ancestor_present(m: FsMap, p: FsPath, l: int)
    requires
        wf_map(m),
        m.contains_key(p),
        0 <= l <= p.len(),
    ensures
        m.contains_key(p.take(l)),
        l < p.len() ==> m[p.take(l)] is Dir,
    decreases p.len() - l,
{
    if l == p.len() {
        assert(p.take(l) =~= p);
        if l < p.len() {
        }
    } else {
        lemma_ancestor_present(m, p, l + 1);
        let q = p.take(l + 1);
        assert(q.len() > 0);
        assert(q.drop_last() =~= p.take(l));
    }
}

/// No file in a well-formed map has anything below it.
pub proof fn lemma_file_no_descendants(m: FsMap, p: FsPath, k: FsPath)
    requires
        wf_map(m),
        m.contains_key(p),
        m[p] is File,
        m.contains_key(k),
        is_path_prefix(p, k),
    ensures
        k == p,
{
    if k.len() > p.len() {
        lemma_ancestor_present(m, k, p.len() as int);
        assert(false);
    } else {
        assert(k.take(p.len() as int) =~= k);
    }
}

#[derive(Debug)]
pub struct MemFS {
    entries: Vec<FsSlot>,
}

#[derive(Debug)]
struct FsSlot {
    path: Vec<String>,
    node: Node,
}

impl FsSlot {
    /// A copy with the same abstract path and node value.
    fn duplicate(&self) -> (r: FsSlot)
        ensures
            r.path.deep_view() == self.path.deep_view(),
            r.node.file_type == self.node.file_type,
            r.node.contents@ == self.node.contents@,
            entry_view(r.node) == entry_view(self.node),
    {
        FsSlot {
            path: clone_segments(&self.path),
            node: Node {
                name: self.node.name.clone(),
                file_type: self.node.file_type,
                contents: vstd::slice::slice_to_vec(self.node.contents.as_slice()),
            },
        }
    }
}

/// Abstract value of one stored node.
pub open spec fn entry_view(n: Node) -> FsEntry {
    if n.file_type is Dir {
        FsEntry::Dir
    } else {
        FsEntry::File(n.contents@)
    }
}

spec fn slots_map(s: Seq<FsSlot>) -> FsMap
    decreases s.len(),
{
    if s.len() == 0 {
        Map::empty()
    } else {
        slots_map(s.drop_last()).insert(s.last().path.deep_view(), entry_view(s.last().node))
    }
}

spec fn slots_unique(s: Seq<FsSlot>) -> bool {
    forall|i: int, j: int|
        0 <= i < j < s.len() ==> (#[trigger] s[i]).path.deep_view() != (#[trigger] s[j]).path.deep_view()
}

proof fn lemma_slots_map_index(s: Seq<FsSlot>, i: int)
    requires
        0 <= i < s.len(),
        forall|j: int| i < j < s.len() ==> (#[trigger] s[j]).path.deep_view() != s[i].path.deep_view(),
    ensures
        slots_map(s).contains_key(s[i].path.deep_view()),
        slots_map(s)[s[i].path.deep_view()] == entry_view(s[i].node),
    decreases s.len(),
{
    if i == s.len() - 1 {
    } else {
        assert(s.drop_last()[i] == s[i]);
        lemma_slots_map_index(s.drop_last(), i);
    }
}

proof fn lemma_slots_map_dom(s: Seq<FsSlot>, p: FsPath)
    ensures
        slots_map(s).contains_key(p) <==> exists|i: int|
            0 <= i < s.len() && (#[trigger] s[i]).path.deep_view() == p,
    decreases s.len(),
{
    if s.len() > 0 {
        lemma_slots_map_dom(s.drop_last(), p);
        if s.last().path.deep_view() == p {
            assert(s[s.len() - 1].path.deep_view() == p);
        } else {
            if slots_map(s).contains_key(p) {
                let i = choose|i: int|
                    0 <= i < s.drop_last().len() && (#[trigger] s.drop_last()[i]).path.deep_view()
                        == p;
                assert(s[i] == s.drop_last()[i]);
            } else {
                if exists|i: int| 0 <= i < s.len() && (#[trigger] s[i]).path.deep_view() == p {
                    let i = choose|i: int|
                        0 <= i < s.len() && (#[trigger] s[i]).path.deep_view() == p;
                    assert(i < s.len() - 1);
                    assert(s.drop_last()[i] == s[i]);
                }
            }
        }
    }
}

/// Copies a segment vector; the copy has the same abstract path.
pub fn clone_segments(v: &Vec<String>) -> (r: Vec<String>)
    ensures
        r.deep_view() == v.deep_view(),
{
    let mut out: Vec<String> = Vec::new();
    let mut i: usize = 0;
    while i < v.len()
        invariant
            i <= v@.len(),
            out.deep_view() == v.deep_view().take(i as int),
        decreases v@.len() - i,
    {
        let ghost pre = out.deep_view();
        out.push(v[i].clone());
        proof {
            assert(out.deep_view() =~= pre.push(v@[i as int]@));
            assert(pre.push(v@[i as int]@) =~= v.deep_view().take(i + 1));
        }
        i += 1;
    }
    proof {
        assert(v.deep_view().take(v@.len() as int) =~= v.deep_view());
    }
    out
}

/// Whether two segment vectors denote the same path.
pub fn path_eq(a: &Vec<String>, b: &Vec<String>) -> (r: bool)
    ensures
        r == (a.deep_view() == b.deep_view()),
{
    if a.len() != b.len() {
        proof {
            assert(a.deep_view().len() == a@.len());
            assert(b.deep_view().len() == b@.len());
        }
        return false;
    }
    let mut i: usize = 0;
    while i < a.len()
        invariant
            a@.len() == b@.len(),
            i <= a@.len(),
            forall|j: int| 0 <= j < i ==> a.deep_view()[j] == b.deep_view()[j],
        decreases a@.len() - i,
    {
        if !(a[i] == b[i]) {
            proof {
                assert(a.deep_view()[i as int] != b.deep_view()[i as int]);
            }
            return false;
        }
        i += 1;
    }
    proof {
        assert(a.deep_view() =~= b.deep_view());
    }
    true
}

/// Whether the path of `p` is a prefix of the path of `q`.
pub fn path_prefix_of(p: &Vec<String>, q: &Vec<String>) -> (r: bool)
    ensures
        r == is_path_prefix(p.deep_view(), q.deep_view()),
{
    if p.len() > q.len() {
        return false;
    }
    let mut i: usize = 0;
    while i < p.len()
        invariant
            p@.len() <= q@.len(),
            i <= p@.len(),
            forall|j: int| 0 <= j < i ==> q.deep_view()[j] == p.deep_view()[j],
        decreases p@.len() - i,
    {
        if !(p[i] == q[i]) {
            proof {
                assert(q.deep_view().take(p.deep_view().len() as int)[i as int]
                    != p.deep_view()[i as int]);
            }
            return false;
        }
        i += 1;
    }
    proof {
        assert(q.deep_view().take(p.deep_view().len() as int) =~= p.deep_view());
    }
    true
}

/// Restriction of `m` to the keys that `p` is not a prefix of.
pub open spec fn fs_prune(m: FsMap, p: FsPath) -> FsMap {
    Map::new(|k: FsPath| m.contains_key(k) && !is_path_prefix(p, k), |k: FsPath| m[k])
}

/// Pruning after inserting a key: a key below `p` vanishes, any other key
/// is kept.
proof fn lemma_prune_insert(m: FsMap, p: FsPath, k: FsPath, v: FsEntry)
    ensures
        !is_path_prefix(p, k) ==> fs_prune(m.insert(k, v), p) == fs_prune(m, p).insert(k, v),
        is_path_prefix(p, k) ==> fs_prune(m.insert(k, v), p) == fs_prune(m, p),
{
    let lhs = fs_prune(m.insert(k, v), p);
    if !is_path_prefix(p, k) {
        let rhs = fs_prune(m, p).insert(k, v);
        assert forall|x: FsPath| lhs.contains_key(x) implies rhs.contains_key(x) && lhs[x]
            == rhs[x] by {
            if x != k {
                assert(m.insert(k, v).contains_key(x) && m.insert(k, v)[x] == m[x]);
            }
        }
        assert forall|x: FsPath| rhs.contains_key(x) implies lhs.contains_key(x) by {
            if x != k {
                assert(m.contains_key(x) && !is_path_prefix(p, x));
            }
        }
        assert(lhs =~= rhs);
    } else {
        let rhs = fs_prune(m, p);
        assert forall|x: FsPath| lhs.contains_key(x) implies rhs.contains_key(x) && lhs[x]
            == rhs[x] by {
            assert(x != k);
            assert(m.insert(k, v).contains_key(x) && m.insert(k, v)[x] == m[x]);
        }
        assert forall|x: FsPath| rhs.contains_key(x) implies lhs.contains_key(x) by {
            assert(x != k);
        }
        assert(lhs =~= rhs);
    }
}

/// Setting a non-root entry whose parent is a directory preserves
/// well-formedness.
pub proof fn lemma_fs_set_wf(m: FsMap, p: FsPath, e: FsEntry)
    requires
        wf_map(m),
        p.len() > 0,
        m.contains_key(p.drop_last()),
        m[p.drop_last()] is Dir,
    ensures
        wf_map(fs_set(m, p, e)),
{
    let m1 = fs_set(m, p, e);
    assert(!is_path_prefix(p, Seq::empty()));
    assert(m1.contains_key(Seq::empty()));
    assert forall|k: FsPath| #[trigger] m1.contains_key(k) && k.len() > 0 implies m1.contains_key(
        k.drop_last(),
    ) && m1[k.drop_last()] is Dir by {
        if k == p {
            assert(!is_path_prefix(p, p.drop_last()));
            assert(p.drop_last() != p);
        } else {
            assert(m.contains_key(k) && !is_path_prefix(p, k));
            let par = k.drop_last();
            if is_path_prefix(p, par) {
                assert(k.take(p.len() as int) =~= par.take(p.len() as int));
                assert(false);
            }
            if par == p {
                assert(k.take(p.len() as int) =~= par);
                assert(false);
            }
        }
    }
}

impl View for MemFS {
    type V = FsMap;

    closed spec fn view(&self) -> FsMap {
        slots_map(self.entries@)
    }
}

impl MemFS {
    /// The tree is well formed: see [`wf_map`].
    pub closed spec fn wf(&self) -> bool {
        &&& slots_unique(self.entries@)
        &&& wf_map(self.view())
    }

    /// Whether the stored slot at `i` has exactly the path `p`.
    fn slot_path_eq(&self, i: usize, p: &Vec<String>) -> (r: bool)
        requires
            i < self.entries@.len(),
        ensures
            r == (self.entries@[i as int].path.deep_view() == p.deep_view()),
    {
        path_eq(&self.entries[i].path, p)
    }

    /// The index of the slot holding `path`, if the path is present.
    fn find_entry(&self, path: &Vec<String>) -> (r: Option<usize>)
        ensures
            r matches Some(i) ==> i < self.entries@.len(),
            self.wf() ==> match r {
                Some(i) => {
                    &&& i < self.entries@.len()
                    &&& self.entries@[i as int].path.deep_view() == path.deep_view()
                    &&& self@.contains_key(path.deep_view())
                    &&& self@[path.deep_view()] == entry_view(self.entries@[i as int].node)
                },
                None => !self@.contains_key(path.deep_view()),
            },
    {
        let mut i: usize = 0;
        while i < self.entries.len()
            invariant
                i <= self.entries@.len(),
                forall|j: int|
                    0 <= j < i ==> (#[trigger] self.entries@[j]).path.deep_view()
                        != path.deep_view(),
            decreases self.entries@.len() - i,
        {
            if self.slot_path_eq(i, path) {
                proof {
                    if self.wf() {
                        lemma_slots_map_index(self.entries@, i as int);
                    }
                }
                return Some(i);
            }
            i += 1;
        }
        proof {
            lemma_slots_map_dom(self.entries@, path.deep_view());
        }
        None
    }

    /// Well-formedness of the tree gives well-formedness of its abstract
    /// map.
    pub proof fn lemma_wf(&self)
        requires
            self.wf(),
        ensures
            wf_map(self@),
    {
    }

    /// Replaces the entry at `path` (pruning everything below it) by a new
    /// node, as `fs_set` describes.
    fn set_entry(&mut self, path: Vec<String>, node: Node)
        requires
            old(self).wf(),
            path.deep_view().len() > 0,
            old(self)@.contains_key(path.deep_view().drop_last()),
            old(self)@[path.deep_view().drop_last()] is Dir,
        ensures
            final(self).wf(),
            final(self)@ == fs_set(old(self)@, path.deep_view(), entry_view(node)),
    {
        let ghost m0 = self@;
        let ghost p = path.deep_view();
        let mut kept: Vec<FsSlot> = Vec::new();
        let mut i: usize = 0;
        proof {
            assert(self.entries@.take(0) =~= Seq::<FsSlot>::empty());
            assert(slots_map(kept@) =~= fs_prune(slots_map(self.entries@.take(0)), p));
        }
        while i < self.entries.len()
            invariant
                slots_unique(self.entries@),
                wf_map(m0),
                m0 == slots_map(self.entries@),
                p == path.deep_view(),
                i <= self.entries@.len(),
                slots_unique(kept@),
                forall|o: int|
                    0 <= o < kept@.len() ==> exists|s: int|
                        0 <= s < i && (#[trigger] kept@[o]).path.deep_view()
                            == self.entries@[s].path.deep_view(),
                forall|o: int|
                    0 <= o < kept@.len() ==> !is_path_prefix(
                        p,
                        (#[trigger] kept@[o]).path.deep_view(),
                    ),
                slots_map(kept@) == fs_prune(slots_map(self.entries@.take(i as int)), p),
            decreases self.entries@.len() - i,
        {
            let ghost processed = slots_map(self.entries@.take(i as int));
            proof {
                assert(self.entries@.take(i + 1).drop_last() =~= self.entries@.take(i as int));
                assert(self.entries@.take(i + 1).last() == self.entries@[i as int]);
                lemma_slots_map_dom(self.entries@.take(i as int), self.entries@[i as int].path.deep_view());
                assert forall|s: int|
                    0 <= s < i implies (#[trigger] self.entries@.take(i as int)[s]).path.deep_view()
                    != self.entries@[i as int].path.deep_view() by {
                    assert(self.entries@.take(i as int)[s] == self.entries@[s]);
                }
            }
            let below = path_prefix_of(&path, &self.entries[i].path);
            proof {
                assert(below == is_path_prefix(p, self.entries@[i as int].path.deep_view()));
            }
            if !below {
                let ghost pre_kept = kept@;
                let keep = self.entries[i].duplicate();
                kept.push(keep);
                proof {
                    let key = self.entries@[i as int].path.deep_view();
                    let val = entry_view(self.entries@[i as int].node);
                    lemma_prune_insert(processed, p, key, val);
                    assert(kept@.drop_last() =~= pre_kept);
                    assert(slots_map(kept@) == slots_map(pre_kept).insert(key, val));
                    assert(slots_map(self.entries@.take(i + 1)) == processed.insert(key, val));
                    assert(slots_map(pre_kept) == fs_prune(processed, p));
                    assert(!is_path_prefix(p, key));
                    assert(fs_prune(processed.insert(key, val), p) == fs_prune(processed, p).insert(
                        key,
                        val,
                    ));
                    assert(slots_map(kept@) == fs_prune(slots_map(self.entries@.take(i + 1)), p));
                    assert forall|o: int| 0 <= o < kept@.len() implies !is_path_prefix(
                        p,
                        (#[trigger] kept@[o]).path.deep_view(),
                    ) by {
                        if o < kept@.len() - 1 {
                            assert(kept@[o] == pre_kept[o]);
                        } else {
                            assert(kept@ == pre_kept.push(kept@.last()));
                            assert(kept@[o].path.deep_view() == key);
                        }
                    }
                }
            } else {
                proof {
                    let key = self.entries@[i as int].path.deep_view();
                    let val = entry_view(self.entries@[i as int].node);
                    lemma_prune_insert(processed, p, key, val);
                    assert(slots_map(self.entries@.take(i + 1)) == processed.insert(key, val));
                    assert(slots_map(kept@) == fs_prune(slots_map(self.entries@.take(i + 1)), p));
                }
            }
            i += 1;
        }
        proof {
            assert(self.entries@.take(self.entries@.len() as int) =~= self.entries@);
        }
        let ghost pre_kept = kept@;
        kept.push(FsSlot { path, node });
        self.entries = kept;
        proof {
            assert(self.entries@.drop_last() =~= pre_kept);
            assert(self.entries@.last().path.deep_view() == p);
            assert(self@ == slots_map(pre_kept).insert(p, entry_view(node)));
            assert(self@ =~= fs_set(m0, p, entry_view(node)));
            lemma_fs_set_wf(m0, p, entry_view(node));
            assert forall|i1: int, j1: int| 0 <= i1 < j1 < self.entries@.len() implies (
            #[trigger] self.entries@[i1]).path.deep_view() != (#[trigger] self.entries@[j1]).path.deep_view() by {
                if j1 < self.entries@.len() - 1 {
                    assert(self.entries@[i1] == pre_kept[i1]);
                    assert(self.entries@[j1] == pre_kept[j1]);
                } else {
                    assert(self.entries@[i1] == pre_kept[i1]);
                    assert(!is_path_prefix(p, pre_kept[i1].path.deep_view()));
                    assert(self.entries@[j1].path.deep_view() == p);
                    if pre_kept[i1].path.deep_view() == p {
                        assert(is_path_prefix(p, p)) by {
                            assert(p.take(p.len() as int) =~= p);
                        }
                    }
                }
            }
        }
    }

    /// The type of the node at `segs`, if one is there.
    pub fn node_kind(&self, segs: &Vec<String>) -> (r: Option<FileType>)
        ensures
            self.wf() ==> match r {
                Some(t) => self@.contains_key(segs.deep_view()) && (t == FileType::Dir <==> self@[segs.deep_view()] is Dir),
                None => !self@.contains_key(segs.deep_view()),
            },
    {
        match self.find_entry(segs) {
            Some(i) => Some(if self.entries[i].node.is_dir() {
                FileType::Dir
            } else {
                FileType::File
            }),
            None => None,
        }
    }

    /// The names of the immediate children of the node at `segs`, each
    /// exactly once, in storage order.
    pub fn read_dir(&self, segs: &Vec<String>) -> (r: Vec<String>)
        ensures
            self.wf() ==> {
                &&& forall|k: int|
                    0 <= k < r.deep_view().len() ==> self@.contains_key(
                        segs.deep_view().push(#[trigger] r.deep_view()[k]),
                    )
                &&& forall|n: Seq<char>|
                    #[trigger] self@.contains_key(segs.deep_view().push(n)) ==> exists|k: int|
                        0 <= k < r.deep_view().len() && r.deep_view()[k] == n
                &&& forall|k1: int, k2: int|
                    0 <= k1 < k2 < r.deep_view().len() ==> r.deep_view()[k1] != r.deep_view()[k2]
            },
    {
        let ghost gs = segs.deep_view();
        let mut out: Vec<String> = Vec::new();
        let mut i: usize = 0;
        while i < self.entries.len()
            invariant
                gs == segs.deep_view(),
                i <= self.entries@.len(),
                forall|k: int|
                    0 <= k < out.deep_view().len() ==> exists|s: int|
                        0 <= s < i && (#[trigger] self.entries@[s]).path.deep_view() == gs.push(
                            #[trigger] out.deep_view()[k],
                        ),
                self.wf() ==> forall|s: int|
                    0 <= s < i && (#[trigger] self.entries@[s]).path.deep_view().len() == gs.len()
                        + 1 && is_path_prefix(gs, self.entries@[s].path.deep_view()) ==> exists|
                    k: int|
                        0 <= k < out.deep_view().len() && out.deep_view()[k]
                            == self.entries@[s].path.deep_view().last(),
                self.wf() ==> forall|k1: int, k2: int|
                    0 <= k1 < k2 < out.deep_view().len() ==> out.deep_view()[k1]
                        != out.deep_view()[k2],
            decreases self.entries@.len() - i,
        {
            let slot = &self.entries[i];
            if slot.path.len() > segs.len() && slot.path.len() - 1 == segs.len()
                && path_prefix_of(segs, &slot.path) {
                let name = slot.path[slot.path.len() - 1].clone();
                let ghost pre = out.deep_view();
                proof {
                    let sp = slot.path.deep_view();
                    assert(sp.len() == gs.len() + 1);
                    assert(sp =~= gs.push(sp.last())) by {
                        assert(sp.take(gs.len() as int) == gs);
                    }
                    assert(name@ == sp.last());
                    // the same child was not collected before
                    if self.wf() {
                        assert forall|k: int| 0 <= k < pre.len() implies pre[k] != name@ by {
                            if pre[k] == name@ {
                                let s = choose|s: int|
                                    0 <= s < i && (#[trigger] self.entries@[s]).path.deep_view()
                                        == gs.push(pre[k]);
                                assert(self.entries@[s].path.deep_view()
                                    == self.entries@[i as int].path.deep_view());
                            }
                        }
                    }
                }
                out.push(name);
                proof {
                    let sp = self.entries@[i as int].path.deep_view();
                    assert(out.deep_view() =~= pre.push(sp.last()));
                    if self.wf() {
                        assert forall|s: int|
                            0 <= s < i + 1 && (#[trigger] self.entries@[s]).path.deep_view().len()
                                == gs.len() + 1 && is_path_prefix(
                                gs,
                                self.entries@[s].path.deep_view(),
                            ) implies exists|k: int|
                            0 <= k < out.deep_view().len() && out.deep_view()[k]
                                == self.entries@[s].path.deep_view().last() by {
                            if s == i {
                                assert(out.deep_view()[pre.len() as int] == sp.last());
                            } else {
                                let k = choose|k: int|
                                    0 <= k < pre.len() && pre[k]
                                        == self.entries@[s].path.deep_view().last();
                                assert(out.deep_view()[k] == pre[k]);
                            }
                        }
                    }
                }
            } else {
                proof {
                    let sp = self.entries@[i as int].path.deep_view();
                    if sp.len() == gs.len() + 1 && is_path_prefix(gs, sp) {
                        assert(false);
                    }
                }
            }
            i += 1;
        }
        proof {
            if self.wf() {
                assert forall|k: int| 0 <= k < out.deep_view().len() implies self@.contains_key(
                    gs.push(#[trigger] out.deep_view()[k]),
                ) by {
                    let s = choose|s: int|
                        0 <= s < self.entries@.len() && (
                        #[trigger] self.entries@[s]).path.deep_view() == gs.push(
                            out.deep_view()[k],
                        );
                    lemma_slots_map_dom(self.entries@, gs.push(out.deep_view()[k]));
                }
                assert forall|n: Seq<char>| #[trigger] self@.contains_key(gs.push(n)) implies exists|
                    k: int,
                | 0 <= k < out.deep_view().len() && out.deep_view()[k] == n by {
                    lemma_slots_map_dom(self.entries@, gs.push(n));
                    let s = choose|s: int|
                        0 <= s < self.entries@.len() && (
                        #[trigger] self.entries@[s]).path.deep_view() == gs.push(n);
                    assert(self.entries@[s].path.deep_view().len() == gs.len() + 1);
                    assert(is_path_prefix(gs, self.entries@[s].path.deep_view())) by {
                        assert(gs.push(n).take(gs.len() as int) =~= gs);
                    }
                    assert(self.entries@[s].path.deep_view().last() == n);
                }
            }
        }
        out
    }

    /// The contents of the file at `segs`, if a file is there.
    pub(crate) fn get_file_data(&self, segs: &Vec<String>) -> (r: Option<Vec<u8>>)
        ensures
            self.wf() ==> match r {
                Some(v) => file_at(self@, segs.deep_view()) && v@ == self@[segs.deep_view()].data(),
                None => !file_at(self@, segs.deep_view()),
            },
    {
        match self.find_entry(segs) {
            Some(i) => {
                if self.entries[i].node.is_file() {
                    Some(vstd::slice::slice_to_vec(self.entries[i].node.contents.as_slice()))
                } else {
                    None
                }
            },
            None => None,
        }
    }

    /// Replaces the contents of the file at `segs`.
    pub(crate) fn set_file_data(&mut self, segs: &Vec<String>, data: Vec<u8>)
        requires
            old(self).wf(),
            file_at(old(self)@, segs.deep_view()),
        ensures
            final(self).wf(),
            final(self)@ == old(self)@.insert(segs.deep_view(), FsEntry::File(data@)),
    {
        let ghost m0 = self@;
        let ghost p = segs.deep_view();
        let i = match self.find_entry(segs) {
            Some(i) => i,
            None => {
                proof {
                    assert(false);
                }
                return ;
            },
        };
        let name = self.entries[i].node.name.clone();
        let slot = FsSlot {
            path: clone_segments(segs),
            node: Node { name, file_type: FileType::File, contents: data },
        };
        proof {
            lemma_slots_map_update(self.entries@, i as int, slot);
        }
        self.entries.set(i, slot);
        proof {
            assert forall|i1: int, j1: int| 0 <= i1 < j1 < self.entries@.len() implies (
            #[trigger] self.entries@[i1]).path.deep_view() != (#[trigger] self.entries@[j1]).path.deep_view() by {
                assert(old(self).entries@[i1].path.deep_view() == self.entries@[i1].path.deep_view());
                assert(old(self).entries@[j1].path.deep_view() == self.entries@[j1].path.deep_view());
            }
            assert(wf_map(self@)) by {
                assert(self@ == m0.insert(p, FsEntry::File(data@)));
                assert(self@.contains_key(Seq::empty()));
                assert(p.len() > 0) by {
                    if p.len() == 0 {
                        assert(p =~= Seq::<Seq<char>>::empty());
                        assert(m0[p] is Dir);
                    }
                }
                assert(self@[Seq::<Seq<char>>::empty()] == m0[Seq::<Seq<char>>::empty()]);
                assert forall|k: FsPath| #[trigger] self@.contains_key(k) && k.len() > 0 implies self@.contains_key(
                    k.drop_last(),
                ) && self@[k.drop_last()] is Dir by {
                    assert(m0.contains_key(k));
                    if k.drop_last() == p {
                        assert(is_path_prefix(p, k)) by {
                            assert(k.take(p.len() as int) =~= k.drop_last());
                        }
                        lemma_file_no_descendants(m0, p, k);
                        assert(false);
                    }
                }
            }
        }
    }

    /// An empty tree: only the root directory.
    pub fn new() -> (r: MemFS)
        ensures
            r.wf(),
            r@ == Map::<FsPath, FsEntry>::empty().insert(Seq::empty(), FsEntry::Dir),
    {
        let root_name = String::from_str("/");
        let mut entries: Vec<FsSlot> = Vec::new();
        entries.push(FsSlot { path: Vec::new(), node: Node::new(root_name, FileType::Dir) });
        let fs = MemFS { entries };
        proof {
            assert(fs.entries@.drop_last() =~= Seq::<FsSlot>::empty());
            let empty_path = Seq::<Seq<char>>::empty();
            assert(fs.entries@.last().path.deep_view() =~= empty_path);
            assert(slots_map(fs.entries@.drop_last()) =~= Map::<FsPath, FsEntry>::empty());
            assert(entry_view(fs.entries@.last().node) == FsEntry::Dir);
            assert(fs@ == slots_map(fs.entries@.drop_last()).insert(
                fs.entries@.last().path.deep_view(),
                entry_view(fs.entries@.last().node),
            ));
            assert(fs@ =~= Map::<FsPath, FsEntry>::empty().insert(empty_path, FsEntry::Dir));
            assert forall|p: FsPath| #[trigger] fs@.contains_key(p) && p.len() > 0 implies fs@.contains_key(
                p.drop_last(),
            ) && fs@[p.drop_last()] is Dir by {}
        }
        fs
    }

    /// Normalizes an absolute path string into its segments; a path without
    /// a leading `/` is rejected as invalid.
    pub fn normalize_path(path: &str) -> (r: Result<Vec<String>, Error>)
        ensures
            match r {
                Ok(v) => is_abs(path@) && v.deep_view() == norm_segs(path@),
                Err(e) => !is_abs(path@) && e@ == (ErrView::InvalidPath(path@)),
            },
    {
        if !starts_with_slash(path) {
            return Err(Error::InvalidPath(String::from_str(path)));
        }
        let parts = split_path(path);
        Ok(clean_parts(&parts))
    }

    /// Splits an absolute path into its normalized parent segments and its
    /// final name; the root has no parent.
    pub fn resolve_parent(path: &str) -> (r: Result<(Vec<String>, String), Error>)
        ensures
            match r {
                Ok(pair) => {
                    &&& is_abs(path@)
                    &&& norm_segs(path@).len() > 0
                    &&& pair.0.deep_view() == norm_segs(path@).drop_last()
                    &&& pair.1@ == norm_segs(path@).last()
                },
                Err(e) => {
                    ||| (!is_abs(path@) && e@ == (ErrView::InvalidPath(path@)))
                    ||| (is_abs(path@) && norm_segs(path@).len() == 0 && e@ == (ErrView::IsRoot))
                },
            },
    {
        let mut segs = match Self::normalize_path(path) {
            Ok(v) => v,
            Err(e) => {
                return Err(e);
            },
        };
        if segs.len() == 0 {
            return Err(Error::IsRoot);
        }
        let ghost whole = segs.deep_view();
        let name = segs.pop().unwrap();
        proof {
            assert(segs.deep_view() =~= whole.drop_last());
        }
        Ok((segs, name))
    }

    /// Finds the slot of a fully resolved path; on failure names the first
    /// segment that does not resolve.
    fn walk_index(&self, segs: &Vec<String>) -> (r: Result<usize, Error>)
        requires
            self.wf(),
        ensures
            match r {
                Ok(i) => {
                    &&& self@.contains_key(segs.deep_view())
                    &&& i < self.entries@.len()
                    &&& self.entries@[i as int].path.deep_view() == segs.deep_view()
                    &&& self@[segs.deep_view()] == entry_view(self.entries@[i as int].node)
                },
                Err(e) => {
                    &&& !self@.contains_key(segs.deep_view())
                    &&& segs.deep_view().len() > 0
                    &&& 0 <= walk_fail_idx(self@, segs.deep_view()) < segs.deep_view().len()
                    &&& e@ == (ErrView::NotFound(
                        segs.deep_view()[walk_fail_idx(self@, segs.deep_view())],
                    ))
                },
            },
    {
        match self.find_entry(segs) {
            Some(i) => Ok(i),
            None => {
                proof {
                    if segs.deep_view().len() == 0 {
                        assert(segs.deep_view() =~= Seq::<Seq<char>>::empty());
                        assert(false);
                    }
                }
                let mut pref: Vec<String> = Vec::new();
                let mut l: usize = 0;
                proof {
                    assert(pref.deep_view() =~= segs.deep_view().take(0));
                }
                while l < segs.len()
                    invariant
                        self.wf(),
                        !self@.contains_key(segs.deep_view()),
                        l <= segs@.len(),
                        pref.deep_view() == segs.deep_view().take(l as int),
                        forall|j: int|
                            0 <= j < l ==> self@.contains_key(#[trigger] segs.deep_view().take(j + 1)),
                    decreases segs@.len() - l,
                {
                    let ghost pre = pref.deep_view();
                    pref.push(segs[l].clone());
                    proof {
                        assert(pref.deep_view() =~= pre.push(segs.deep_view()[l as int]));
                        assert(pref.deep_view() =~= segs.deep_view().take(l + 1));
                    }
                    if self.find_entry(&pref).is_none() {
                        proof {
                            lemma_walk_fail_at(self@, segs.deep_view(), l as int);
                        }
                        return Err(Error::NotFound(segs[l].clone()));
                    }
                    l += 1;
                }
                proof {
                    assert(self@.contains_key(segs.deep_view().take((l - 1) + 1)));
                    assert(segs.deep_view().take((l - 1) + 1) =~= segs.deep_view());
                    assert(false);
                }
                Err(Error::IsRoot)
            },
        }
    }

    /// Creates a directory at an absolute path, replacing whatever was
    /// there and discarding anything below it. The parent must already be a
    /// directory.
    pub fn create_dir(&mut self, path: &str) -> (r: Result<(), Error>)
        requires
            old(self).wf(),
        ensures
            final(self).wf(),
            match r {
                Ok(()) => {
                    &&& is_abs(path@)
                    &&& norm_segs(path@).len() > 0
                    &&& old(self)@.contains_key(norm_segs(path@).drop_last())
                    &&& old(self)@[norm_segs(path@).drop_last()] is Dir
                    &&& final(self)@ == fs_set(old(self)@, norm_segs(path@), FsEntry::Dir)
                },
                Err(e) => {
                    &&& final(self)@ == old(self)@
                    &&& create_err(old(self)@, path@, e@)
                },
            },
    {
        let (parent, name) = match Self::resolve_parent(path) {
            Ok(pair) => pair,
            Err(e) => {
                return Err(e);
            },
        };
        let i = match self.walk_index(&parent) {
            Ok(i) => i,
            Err(e) => {
                return Err(e);
            },
        };
        if !self.entries[i].node.is_dir() {
            return Err(Error::NotFound(name));
        }
        let ghost norm = norm_segs(path@);
        let mut full = parent;
        let node = Node::new(name.clone(), FileType::Dir);
        full.push(name);
        proof {
            assert(full.deep_view() =~= norm.drop_last().push(norm.last()));
            assert(norm.drop_last().push(norm.last()) =~= norm);
        }
        self.set_entry(full, node);
        Ok(())
    }

    /// Creates an empty file at an absolute path, replacing whatever was
    /// there, and returns a handle positioned at the start. The parent
    /// must already be a directory.
    pub fn create_file(&mut self, path: &str) -> (r: Result<File, Error>)
        requires
            old(self).wf(),
        ensures
            final(self).wf(),
            match r {
                Ok(f) => {
                    &&& is_abs(path@)
                    &&& norm_segs(path@).len() > 0
                    &&& old(self)@.contains_key(norm_segs(path@).drop_last())
                    &&& old(self)@[norm_segs(path@).drop_last()] is Dir
                    &&& final(self)@ == fs_set(
                        old(self)@,
                        norm_segs(path@),
                        FsEntry::File(Seq::empty()),
                    )
                    &&& f.path_view() == norm_segs(path@)
                    &&& f.pos() == 0
                    &&& f.wf()
                },
                Err(e) => {
                    &&& final(self)@ == old(self)@
                    &&& create_err(old(self)@, path@, e@)
                },
            },
    {
        let (parent, name) = match Self::resolve_parent(path) {
            Ok(pair) => pair,
            Err(e) => {
                return Err(e);
            },
        };
        let i = match self.walk_index(&parent) {
            Ok(i) => i,
            Err(e) => {
                return Err(e);
            },
        };
        if !self.entries[i].node.is_dir() {
            return Err(Error::NotFound(name));
        }
        let ghost norm = norm_segs(path@);
        let mut full = parent;
        let node = Node::new(name.clone(), FileType::File);
        full.push(name);
        proof {
            assert(full.deep_view() =~= norm.drop_last().push(norm.last()));
            assert(norm.drop_last().push(norm.last()) =~= norm);
        }
        let handle = File::new(clone_segments(&full));
        self.set_entry(full, node);
        Ok(handle)
    }

    /// Opens the node at an absolute path; the path must fully resolve,
    /// and the root cannot be opened.
    pub fn open_file(&self, path: &str) -> (r: Result<File, Error>)
        requires
            self.wf(),
        ensures
            match r {
                Ok(f) => {
                    &&& is_abs(path@)
                    &&& norm_segs(path@).len() > 0
                    &&& self@.contains_key(norm_segs(path@))
                    &&& f.path_view() == norm_segs(path@)
                    &&& f.pos() == 0
                    &&& f.wf()
                },
                Err(e) => open_err(self@, path@, e@),
            },
    {
        let segs = match Self::normalize_path(path) {
            Ok(v) => v,
            Err(e) => {
                return Err(e);
            },
        };
        if segs.len() == 0 {
            return Err(Error::IsRoot);
        }
        match self.walk_index(&segs) {
            Ok(_) => Ok(File::new(segs)),
            Err(e) => Err(e),
        }
    }

    /// Creates a directory and all of its missing ancestors. From the
    /// first ancestor level that is not already a directory, each level
    /// (the path itself included) is replaced by a fresh directory; the
    /// root itself is left untouched. Only a relative path is an error.
    pub fn create_dir_all(&mut self, path: &str) -> (r: Result<(), Error>)
        requires
            old(self).wf(),
        ensures
            final(self).wf(),
            match r {
                Ok(()) => is_abs(path@) && final(self)@ == create_all_post(
                    old(self)@,
                    norm_segs(path@),
                ),
                Err(e) => {
                    &&& !is_abs(path@)
                    &&& e@ == (ErrView::InvalidPath(path@))
                    &&& final(self)@ == old(self)@
                },
            },
    {
        if !starts_with_slash(path) {
            return Err(Error::InvalidPath(String::from_str(path)));
        }
        let parts = split_path(path);
        let segs = clean_parts(&parts);
        let n = segs.len();
        if n == 0 {
            return Ok(());
        }
        let ghost m0 = self@;
        let ghost gs = segs.deep_view();
        let ghost l0 = first_nondir_level(m0, gs, 1);
        let mut pref: Vec<String> = Vec::new();
        let mut i: usize = 0;
        let mut creating = false;
        proof {
            assert(pref.deep_view() =~= gs.take(0));
        }
        while i < n
            invariant
                self.wf(),
                wf_map(m0),
                gs == segs.deep_view(),
                n == segs@.len(),
                n == gs.len(),
                0 < n,
                i <= n,
                l0 == first_nondir_level(m0, gs, 1),
                pref.deep_view() == gs.take(i as int),
                !creating ==> {
                    &&& self@ == m0
                    &&& i < n
                    &&& l0 == first_nondir_level(m0, gs, i + 1)
                    &&& (i == 0 || is_dir_in(m0, gs.take(i as int)))
                },
                creating ==> 1 <= l0 <= i && self@ == set_dirs_range(m0, gs, l0, i as int),
            decreases n - i,
        {
            let ghost pre_pref = pref.deep_view();
            let ghost was_creating = creating;
            pref.push(segs[i].clone());
            proof {
                assert(pref.deep_view() =~= pre_pref.push(gs[i as int]));
                assert(pref.deep_view() =~= gs.take(i + 1));
            }
            let do_set: bool;
            if creating || i + 1 == n {
                do_set = true;
            } else {
                do_set = match self.find_entry(&pref) {
                    Some(idx) => !self.entries[idx].node.is_dir(),
                    None => true,
                };
                proof {
                    assert(do_set == !is_dir_in(m0, gs.take(i + 1)));
                }
            }
            if do_set {
                proof {
                    // the parent of the level being set is a directory now
                    if was_creating {
                        assert(self@ == fs_set(
                            set_dirs_range(m0, gs, l0, i - 1),
                            gs.take(i as int),
                            FsEntry::Dir,
                        ));
                        assert(self@.contains_key(gs.take(i as int)));
                        assert(self@[gs.take(i as int)] is Dir);
                    } else {
                        if i == 0 {
                            assert(gs.take(0) =~= Seq::<Seq<char>>::empty());
                        }
                        assert(self@.contains_key(gs.take(i as int)));
                        assert(self@[gs.take(i as int)] is Dir);
                    }
                    assert(gs.take(i + 1).drop_last() =~= gs.take(i as int));
                }
                let node = Node::new(segs[i].clone(), FileType::Dir);
                let full = clone_segments(&pref);
                let ghost pre_map = self@;
                self.set_entry(full, node);
                proof {
                    assert(self@ == fs_set(pre_map, gs.take(i + 1), FsEntry::Dir));
                    if was_creating {
                        assert(self@ == set_dirs_range(m0, gs, l0, i + 1));
                    } else {
                        if i + 1 == n {
                            assert(l0 == first_nondir_level(m0, gs, i + 1));
                            assert(l0 == n);
                        } else {
                            assert(l0 == first_nondir_level(m0, gs, i + 1));
                            assert(!is_dir_in(m0, gs.take(i + 1)));
                            assert(l0 == i + 1);
                        }
                        assert(set_dirs_range(m0, gs, l0, l0 - 1) == m0);
                        assert(self@ == set_dirs_range(m0, gs, l0, i + 1));
                    }
                }
                creating = true;
            } else {
                proof {
                    assert(is_dir_in(m0, gs.take(i + 1)));
                    assert(l0 == first_nondir_level(m0, gs, i + 2));
                }
            }
            i += 1;
        }
        proof {
            assert(creating);
            assert(self@ == set_dirs_range(m0, gs, l0, n as int));
            assert(norm_segs(path@) == gs);
            assert(create_all_post(m0, gs) == set_dirs_range(m0, gs, l0, n as int));
        }
        Ok(())
    }

    /// Whether an absolute path resolves to a directory; never an error.
    pub fn is_dir(&self, path: &str) -> (r: Result<bool, Error>)
        requires
            self.wf(),
        ensures
            r is Ok,
            r == Ok::<bool, Error>(
                is_abs(path@) && self@.contains_key(norm_segs(path@)) && self@[norm_segs(path@)] is Dir,
            ),
    {
        let segs = match Self::normalize_path(path) {
            Ok(v) => v,
            Err(_) => {
                return Ok(false);
            },
        };
        match self.find_entry(&segs) {
            Some(i) => Ok(self.entries[i].node.is_dir()),
            None => Ok(false),
        }
    }

    /// Whether an absolute path resolves to a file; never an error.
    pub fn is_file(&self, path: &str) -> (r: Result<bool, Error>)
        requires
            self.wf(),
        ensures
            r is Ok,
            r == Ok::<bool, Error>(
                is_abs(path@) && self@.contains_key(norm_segs(path@)) && self@[norm_segs(path@)] is File,
            ),
    {
        let segs = match Self::normalize_path(path) {
            Ok(v) => v,
            Err(_) => {
                return Ok(false);
            },
        };
        match self.find_entry(&segs) {
            Some(i) => Ok(self.entries[i].node.is_file()),
            None => Ok(false),
        }
    }
}

/// Whether path `p` is present in `m` as a file.
pub open spec fn file_at(m: FsMap, p: FsPath) -> bool {
    m.contains_key(p) && m[p] is File
}

proof fn lemma_slots_map_update(s: Seq<FsSlot>, i: int, slot: FsSlot)
    requires
        slots_unique(s),
        0 <= i < s.len(),
        slot.path.deep_view() == s[i].path.deep_view(),
    ensures
        slots_map(s.update(i, slot)) == slots_map(s).insert(
            slot.path.deep_view(),
            entry_view(slot.node),
        ),
    decreases s.len(),
{
    let k = slot.path.deep_view();
    let u = s.update(i, slot);
    if i == s.len() - 1 {
        assert(u.drop_last() =~= s.drop_last());
        assert(u.last() == slot);
        assert(slots_map(u) == slots_map(s.drop_last()).insert(k, entry_view(slot.node)));
        assert(slots_map(s.drop_last()).insert(s[i].path.deep_view(), entry_view(s[i].node)).insert(
            k,
            entry_view(slot.node),
        ) =~= slots_map(s.drop_last()).insert(k, entry_view(slot.node)));
    } else {
        assert(u.drop_last() =~= s.drop_last().update(i, slot));
        assert(u.last() == s.last());
        assert(s.drop_last()[i] == s[i]);
        lemma_slots_map_update(s.drop_last(), i, slot);
        let kl = s.last().path.deep_view();
        let vl = entry_view(s.last().node);
        assert(slots_map(u) == slots_map(s.drop_last()).insert(k, entry_view(slot.node)).insert(
            kl,
            vl,
        ));
        assert(kl != k) by {
            assert(s[s.len() - 1].path.deep_view() == kl);
        }
        assert(slots_map(s.drop_last()).insert(k, entry_view(slot.node)).insert(kl, vl)
            =~= slots_map(s.drop_last()).insert(kl, vl).insert(k, entry_view(slot.node)));
    }
}

/// Whether path `p` is present in `m` as a directory.
pub open spec fn is_dir_in(m: FsMap, p: FsPath) -> bool {
    m.contains_key(p) && m[p] is Dir
}

/// The length of the first prefix of `segs`, from `l` on and shorter than
/// the whole path, that is not a directory in `m`; `segs.len()` if every
/// proper prefix is one.
pub open spec fn first_nondir_level(m: FsMap, segs: FsPath, l: int) -> int
    decreases segs.len() - l,
{
    if l < 1 || l >= segs.len() {
        segs.len() as int
    } else if is_dir_in(m, segs.take(l)) {
        first_nondir_level(m, segs, l + 1)
    } else {
        l
    }
}

/// Replaces the prefixes of `segs` of lengths `a` through `b`, shallowest
/// first, each by a fresh directory.
pub open spec fn set_dirs_range(m: FsMap, segs: FsPath, a: int, b: int) -> FsMap
    decreases b - a + 1,
{
    if b < a || b < 1 || b > segs.len() || a < 1 {
        m
    } else {
        fs_set(set_dirs_range(m, segs, a, b - 1), segs.take(b), FsEntry::Dir)
    }
}

/// The tree after `create_dir_all`: every ancestor level from the first
/// that was not already a directory, and the path itself, replaced by a
/// fresh directory.
pub open spec fn create_all_post(m: FsMap, segs: FsPath) -> FsMap {
    if segs.len() == 0 {
        m
    } else {
        set_dirs_range(m, segs, first_nondir_level(m, segs, 1), segs.len() as int)
    }
}

proof fn lemma_fnl_bounds(m: FsMap, segs: FsPath, l: int)
    requires
        1 <= l <= segs.len(),
    ensures
        l <= first_nondir_level(m, segs, l) <= segs.len(),
        forall|j: int|
            l <= j < first_nondir_level(m, segs, l) ==> is_dir_in(m, #[trigger] segs.take(j)),
    decreases segs.len() - l,
{
    if l < segs.len() && is_dir_in(m, segs.take(l)) {
        lemma_fnl_bounds(m, segs, l + 1);
    }
}

proof fn lemma_fnl_all_dirs(m: FsMap, segs: FsPath, l: int)
    requires
        1 <= l <= segs.len(),
        forall|j: int| 1 <= j < segs.len() ==> is_dir_in(m, #[trigger] segs.take(j)),
    ensures
        first_nondir_level(m, segs, l) == segs.len(),
    decreases segs.len() - l,
{
    if l < segs.len() {
        lemma_fnl_all_dirs(m, segs, l + 1);
    }
}

proof fn lemma_range_facts(m: FsMap, segs: FsPath, a: int, b: int)
    requires
        1 <= a <= b <= segs.len(),
    ensures
        forall|l: int|
            a <= l <= b ==> is_dir_in(set_dirs_range(m, segs, a, b), #[trigger] segs.take(l)),
        forall|k: FsPath| #![trigger m.contains_key(k)] #![trigger set_dirs_range(m, segs, a, b).contains_key(k)]
            k.len() < a ==> (set_dirs_range(m, segs, a, b).contains_key(k) <==> m.contains_key(k))
                && (m.contains_key(k) ==> set_dirs_range(m, segs, a, b)[k] == m[k]),
        forall|k: FsPath|
            #[trigger] set_dirs_range(m, segs, a, b).contains_key(k) && is_path_prefix(
                segs.take(b),
                k,
            ) ==> k == segs.take(b),
    decreases b - a + 1,
{
    let r = set_dirs_range(m, segs, a, b);
    let inner = set_dirs_range(m, segs, a, b - 1);
    assert(r == fs_set(inner, segs.take(b), FsEntry::Dir));
    if a <= b - 1 {
        lemma_range_facts(m, segs, a, b - 1);
    }
    assert forall|l: int| a <= l <= b implies is_dir_in(r, #[trigger] segs.take(l)) by {
        if l < b {
            assert(is_dir_in(inner, segs.take(l)));
            assert(!is_path_prefix(segs.take(b), segs.take(l)));
            assert(segs.take(l) != segs.take(b));
        }
    }
    assert forall|k: FsPath| k.len() < a implies (r.contains_key(k) <==> m.contains_key(k)) && (
    m.contains_key(k) ==> r[k] == m[k]) by {
        assert(segs.take(b).len() == b);
        assert(!is_path_prefix(segs.take(b), k));
        assert(k != segs.take(b));
        if a <= b - 1 {
            assert(set_dirs_range(m, segs, a, b - 1).contains_key(k) <==> m.contains_key(k));
            assert(m.contains_key(k) ==> set_dirs_range(m, segs, a, b - 1)[k] == m[k]);
        } else {
            assert(inner == m);
        }
    }
}

/// The law of recursive directory creation: afterwards every ancestor of
/// the target (the target included) is a directory, and doing it again
/// changes nothing.
pub proof fn lemma_create_dir_all_law(m: FsMap, segs: FsPath)
    requires
        wf_map(m),
    ensures
        forall|l: int|
            0 <= l <= segs.len() ==> is_dir_in(create_all_post(m, segs), #[trigger] segs.take(l)),
        create_all_post(create_all_post(m, segs), segs) == create_all_post(m, segs),
{
    let post = create_all_post(m, segs);
    let n = segs.len() as int;
    if n == 0 {
        assert forall|l: int| 0 <= l <= n implies is_dir_in(post, #[trigger] segs.take(l)) by {
            assert(segs.take(l) =~= Seq::<Seq<char>>::empty());
        }
    } else {
        let l0 = first_nondir_level(m, segs, 1);
        lemma_fnl_bounds(m, segs, 1);
        lemma_range_facts(m, segs, l0, n);
        assert forall|l: int| 0 <= l <= n implies is_dir_in(post, #[trigger] segs.take(l)) by {
            if l < l0 {
                if l == 0 {
                    assert(segs.take(0) =~= Seq::<Seq<char>>::empty());
                    assert(is_dir_in(m, segs.take(0)));
                } else {
                    assert(is_dir_in(m, segs.take(l)));
                }
                assert(segs.take(l).len() < l0);
            }
        }
        assert(first_nondir_level(post, segs, 1) == n) by {
            lemma_fnl_all_dirs(post, segs, 1);
        }
        let post2 = create_all_post(post, segs);
        assert(post2 == fs_set(set_dirs_range(post, segs, n, n - 1), segs.take(n), FsEntry::Dir));
        assert(set_dirs_range(post, segs, n, n - 1) == post);
        assert(segs.take(n) =~= segs);
        assert(post2 == fs_set(post, segs, FsEntry::Dir));
        assert forall|k: FsPath| #[trigger] post.contains_key(k) && is_path_prefix(segs, k)
            implies k == segs by {
            assert(is_path_prefix(segs.take(n), k));
        }
        assert(is_dir_in(post, segs.take(n)));
        assert(post2 =~= post);
    }
}

/// The write-then-read law: creating a file at `p`, then appending `b` to
/// it, leaves a file whose whole contents read back as exactly `b`.
pub proof fn lemma_write_read_round_trip(m: FsMap, p: FsPath, b: Seq<u8>)
    ensures
        ({
            let created = fs_set(m, p, FsEntry::File(Seq::empty()));
            let written = created.insert(p, FsEntry::File(created[p].data() + b));
            file_at(written, p) && written[p].data() == b
        }),
{
    let created = fs_set(m, p, FsEntry::File(Seq::empty()));
    assert(created.contains_key(p));
    assert(created[p] == FsEntry::File(Seq::<u8>::empty()));
    assert(Seq::<u8>::empty() + b =~= b);
}

/// The error cases of opening: an invalid path, the root, or a full walk
/// that fails at its first unresolved segment.
pub open spec fn open_err(m: FsMap, path: Seq<char>, e: ErrView) -> bool {
    let norm = norm_segs(path);
    if !is_abs(path) {
        e == (ErrView::InvalidPath(path))
    } else if norm.len() == 0 {
        e == (ErrView::IsRoot)
    } else if !m.contains_key(norm) {
        e == (ErrView::NotFound(norm[walk_fail_idx(m, norm)]))
    } else {
        false
    }
}

/// The error cases shared by the creating operations: an invalid path,
/// the root, a parent walk that fails at its first unresolved segment, or
/// a parent that is not a directory, which reports the final name.
pub open spec fn create_err(m: FsMap, path: Seq<char>, e: ErrView) -> bool {
    let norm = norm_segs(path);
    let parent = norm.drop_last();
    if !is_abs(path) {
        e == (ErrView::InvalidPath(path))
    } else if norm.len() == 0 {
        e == (ErrView::IsRoot)
    } else if !m.contains_key(parent) {
        e == (ErrView::NotFound(parent[walk_fail_idx(m, parent)]))
    } else if !(m[parent] is Dir) {
        e == (ErrView::NotFound(norm.last()))
    } else {
        false
    }
}

} // verus!
