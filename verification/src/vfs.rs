//! The guest-visible virtual file system: a thin interface over the
//! in-memory file tree used by the sandbox bridge, and the path sanitizer
//! that confines output paths below a virtual root.

use crate::error::{ErrView, Error};
use crate::memfs::{
    create_all_post, create_err, file_at, fs_set, norm_segs, open_err, FsEntry, MemFS,
};
use crate::normpath::{clean_parts, clean_path, is_abs, join_path, split_path};
use vstd::prelude::*;

verus! {

/// The sandbox's authoritative guest file system.
pub struct VirtualFS {
    backend: MemFS,
}

impl View for VirtualFS {
    type V = <MemFS as View>::V;

    closed spec fn view(&self) -> <MemFS as View>::V {
        self.backend@
    }
}

impl VirtualFS {
    /// The tree is well formed.
    pub closed spec fn wf(&self) -> bool {
        self.backend.wf()
    }

    /// Well-formedness of the tree gives well-formedness of its abstract
    /// map.
    pub proof fn lemma_wf(&self)
        requires
            self.wf(),
        ensures
            crate::memfs::wf_map(self@),
    {
        self.backend.lemma_wf();
    }

    /// A fresh tree holding only the root directory.
    pub fn new() -> (r: VirtualFS)
        ensures
            r.wf(),
            r@ == Map::<crate::memfs::FsPath, FsEntry>::empty().insert(Seq::empty(), FsEntry::Dir),
    {
        VirtualFS { backend: MemFS::new() }
    }

    /// Reads the whole contents of the file at an absolute path.
    pub fn read_file(&mut self, path: &str) -> (r: Result<Vec<u8>, Error>)
        requires
            old(self).wf(),
        ensures
            final(self).wf(),
            final(self)@ == old(self)@,
            match r {
                Ok(v) => {
                    &&& is_abs(path@)
                    &&& file_at(old(self)@, norm_segs(path@))
                    &&& v@ == old(self)@[norm_segs(path@)].data()
                },
                Err(e) => {
                    ||| open_err(old(self)@, path@, e@)
                    ||| (old(self)@.contains_key(norm_segs(path@)) && !file_at(
                        old(self)@,
                        norm_segs(path@),
                    ) && norm_segs(path@).len() > 0 && e@ == (ErrView::NotFound(
                        norm_segs(path@).last(),
                    )))
                },
            },
    {
        let mut file = match self.backend.open_file(path) {
            Ok(f) => f,
            Err(e) => {
                return Err(e);
            },
        };
        file.read_to_end(&self.backend)
    }

    /// The whole contents of the file at an absolute path, without
    /// touching the tree.
    pub fn get_file_contents(&self, path: &str) -> (r: Result<Vec<u8>, Error>)
        requires
            self.wf(),
        ensures
            match r {
                Ok(v) => {
                    &&& is_abs(path@)
                    &&& file_at(self@, norm_segs(path@))
                    &&& v@ == self@[norm_segs(path@)].data()
                },
                Err(e) => {
                    ||| open_err(self@, path@, e@)
                    ||| (self@.contains_key(norm_segs(path@)) && !file_at(self@, norm_segs(path@))
                        && norm_segs(path@).len() > 0 && e@ == (ErrView::NotFound(
                        norm_segs(path@).last(),
                    )))
                },
            },
    {
        let mut file = match self.backend.open_file(path) {
            Ok(f) => f,
            Err(e) => {
                return Err(e);
            },
        };
        file.read_to_end(&self.backend)
    }

    /// Creates or replaces the file at an absolute path with the given
    /// contents. The parent must already be a directory.
    pub fn write_file(&mut self, path: &str, contents: &[u8]) -> (r: Result<(), Error>)
        requires
            old(self).wf(),
        ensures
            final(self).wf(),
            match r {
                Ok(()) => {
                    &&& is_abs(path@)
                    &&& norm_segs(path@).len() > 0
                    &&& final(self)@ == fs_set(
                        old(self)@,
                        norm_segs(path@),
                        FsEntry::File(contents@),
                    )
                },
                Err(e) => {
                    &&& final(self)@ == old(self)@
                    &&& create_err(old(self)@, path@, e@)
                },
            },
    {
        let file = match self.backend.create_file(path) {
            Ok(f) => f,
            Err(e) => {
                return Err(e);
            },
        };
        let ghost m0 = old(self)@;
        let ghost p = norm_segs(path@);
        proof {
            assert(Seq::<u8>::empty() + contents@ =~= contents@);
        }
        match file.write_all(&mut self.backend, contents) {
            Ok(()) => {
                proof {
                    let created = fs_set(m0, p, FsEntry::File(Seq::empty()));
                    assert(created[p].data() =~= Seq::<u8>::empty());
                    assert(self@ == created.insert(p, FsEntry::File(contents@)));
                    assert(self@ =~= fs_set(m0, p, FsEntry::File(contents@)));
                }
                Ok(())
            },
            Err(e) => {
                proof {
                    assert(false);
                }
                Err(e)
            },
        }
    }

    /// Creates a directory and all of its missing ancestors.
    pub fn create_dir_all(&mut self, path: &str) -> (r: Result<(), Error>)
        requires
            old(self).wf(),
        ensures
            final(self).wf(),
            match r {
                Ok(()) => is_abs(path@) && final(self)@ == create_all_post(
                    old(self)@,
                    norm_segs(path@),
                ),
                Err(e) => {
                    &&& !is_abs(path@)
                    &&& e@ == (ErrView::InvalidPath(path@))
                    &&& final(self)@ == old(self)@
                },
            },
    {
        self.backend.create_dir_all(path)
    }
}

/// Confines a relative path below a virtual root: the path is interpreted
/// against `/`, `.` and `..` are collapsed with traversal clamped at that
/// root, and the leading separator is dropped again. The result never
/// escapes upward, and sanitizing twice changes nothing.
pub fn sanitize_path(path: &str) -> (r: Result<String, Error>)
    ensures
        r is Ok,
        r matches Ok(s) && s@ == clean_path(path@),
{
    let parts = split_path(path);
    let cleaned = clean_parts(&parts);
    Ok(join_path(&cleaned))
}

} // verus!
