//! An open handle into the in-memory file tree: a path together with a
//! read cursor. The cursor advances only on reads; writes always append to
//! the file's contents.

use crate::error::{ErrView, Error};
use crate::memfs::{file_at, FsEntry, FsPath, MemFS};
use vstd::prelude::*;

verus! {

/// An open file handle: the normalized path of the node it refers to, and
/// an independent read cursor.
#[derive(Debug)]
pub struct File {
    pub(crate) path: Vec<String>,
    pub(crate) rdr_pos: usize,
}

impl File {
    /// The normalized path this handle refers to.
    pub closed spec fn path_view(&self) -> FsPath {
        self.path.deep_view()
    }

    /// The read cursor.
    pub closed spec fn pos(&self) -> nat {
        self.rdr_pos as nat
    }

    /// A handle never refers to the root.
    pub open spec fn wf(&self) -> bool {
        self.path_view().len() > 0
    }

    /// A fresh handle at the start of the given path.
    pub(crate) fn new(path: Vec<String>) -> (f: File)
        ensures
            f.path_view() == path.deep_view(),
            f.pos() == 0,
    {
        File { path, rdr_pos: 0 }
    }

    /// Rewinds the read cursor, so that the next read starts over.
    pub fn reset(&mut self)
        ensures
            final(self).path_view() == old(self).path_view(),
            final(self).pos() == 0,
    {
        self.rdr_pos = 0;
    }

    /// Reads everything from the cursor to the end of the file and leaves
    /// the cursor at the end: a second read returns nothing until the
    /// handle is reset.
    pub fn read_to_end(&mut self, fs: &MemFS) -> (r: Result<Vec<u8>, Error>)
        requires
            fs.wf(),
            old(self).wf(),
        ensures
            final(self).wf(),
            final(self).path_view() == old(self).path_view(),
            match r {
                Ok(v) => {
                    &&& file_at(fs@, old(self).path_view())
                    &&& {
                        let data = fs@[old(self).path_view()].data();
                        let start = if old(self).pos() <= data.len() {
                            old(self).pos() as int
                        } else {
                            data.len() as int
                        };
                        v@ == data.skip(start) && final(self).pos() == data.len()
                    }
                },
                Err(e) => {
                    &&& !file_at(fs@, old(self).path_view())
                    &&& e@ == (ErrView::NotFound(old(self).path_view().last()))
                    &&& final(self).pos() == old(self).pos()
                },
            },
    {
        let data = match fs.get_file_data(&self.path) {
            Some(v) => v,
            None => {
                let name = self.path[self.path.len() - 1].clone();
                proof {
                    assert(self.path.deep_view()[self.path@.len() - 1] == self.path@[self.path@.len()
                        - 1]@);
                }
                return Err(Error::NotFound(name));
            },
        };
        let len = data.len();
        let start = crate::min_usize(self.rdr_pos, len);
        let out = vstd::slice::slice_to_vec(vstd::slice::slice_subrange(data.as_slice(), start, len));
        self.rdr_pos = len;
        proof {
            assert(out@ =~= fs@[self.path_view()].data().skip(start as int));
        }
        Ok(out)
    }

    /// Appends bytes to the end of the file this handle refers to. The
    /// read cursor is unchanged.
    pub fn write_all(&self, fs: &mut MemFS, buf: &[u8]) -> (r: Result<(), Error>)
        requires
            old(fs).wf(),
            self.wf(),
        ensures
            final(fs).wf(),
            match r {
                Ok(()) => {
                    &&& file_at(old(fs)@, self.path_view())
                    &&& final(fs)@ == old(fs)@.insert(
                        self.path_view(),
                        FsEntry::File(old(fs)@[self.path_view()].data() + buf@),
                    )
                },
                Err(e) => {
                    &&& !file_at(old(fs)@, self.path_view())
                    &&& final(fs)@ == old(fs)@
                    &&& e@ == (ErrView::NotFound(self.path_view().last()))
                },
            },
    {
        let mut data = match fs.get_file_data(&self.path) {
            Some(v) => v,
            None => {
                let name = self.path[self.path.len() - 1].clone();
                proof {
                    assert(self.path.deep_view()[self.path@.len() - 1] == self.path@[self.path@.len()
                        - 1]@);
                }
                return Err(Error::NotFound(name));
            },
        };
        append_bytes(&mut data, buf);
        fs.set_file_data(&self.path, data);
        Ok(())
    }
}

/// Appends the bytes of `src` to `dst`.
pub fn append_bytes(dst: &mut Vec<u8>, src: &[u8])
    ensures
        final(dst)@ == old(dst)@ + src@,
{
    let mut i: usize = 0;
    proof {
        assert(dst@ + src@.take(0) =~= dst@);
    }
    while i < src.len()
        invariant
            i <= src@.len(),
            dst@ == old(dst)@ + src@.take(i as int),
        decreases src@.len() - i,
    {
        let b = *vstd::slice::slice_index_get(src, i);
        dst.push(b);
        proof {
            assert(old(dst)@ + src@.take(i + 1) =~= (old(dst)@ + src@.take(i as int)).push(
                src@[i as int],
            ));
        }
        i += 1;
    }
    proof {
        assert(src@.take(src@.len() as int) =~= src@);
    }
}

} // verus!
