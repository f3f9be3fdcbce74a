//! Safe parsing of guest-supplied volume paths: a slash-separated path is
//! split into named parts, and any colon, backslash or control character
//! anywhere in it is rejected.

use crate::vfsops::VfsError;
use crate::normpath::{split_path, split_slash};
use vstd::prelude::*;

verus! {

/// A control character: the Unicode `Cc` category.
pub open spec fn is_control_char(c: char) -> bool {
    (c as u32) < 0x20 || (0x7f <= c as u32 && c as u32 <= 0x9f)
}

/// A character allowed inside a path: not a colon, backslash or control
/// character.
pub open spec fn path_char_ok(c: char) -> bool {
    c != ':' && c != '\\' && !is_control_char(c)
}

/// Every character of the path is allowed or a separator.
pub open spec fn path_ok(s: Seq<char>) -> bool {
    forall|j: int| 0 <= j < s.len() ==> (s[j] == '/' || path_char_ok(#[trigger] s[j]))
}

/// The path with one leading separator removed.
pub open spec fn strip_root(s: Seq<char>) -> Seq<char> {
    if s.len() > 0 && s[0] == '/' {
        s.skip(1)
    } else {
        s
    }
}

/// Whether the stripped path ends in a separator, so that no part of it
/// is final.
pub open spec fn ends_in_slash(s: Seq<char>) -> bool {
    s.len() > 0 && s[s.len() - 1] == '/'
}

/// A path to be resolved inside one volume, interpreted relative to the
/// volume root: one leading `/` is ignored.
pub struct SafePath<'a> {
    path: &'a str,
}

/// One segment of a parsed path; `last` marks the final segment of a path
/// that does not end in a separator.
#[derive(Debug)]
pub struct PathPart {
    name: String,
    last: bool,
}

impl PathPart {
    /// The segment's name.
    pub closed spec fn name_view(&self) -> Seq<char> {
        self.name@
    }

    /// Whether this is the terminal segment.
    pub closed spec fn spec_is_last(&self) -> bool {
        self.last
    }

    /// Whether this is the terminal segment, on which the resolvers
    /// perform their operation rather than descend.
    pub fn is_last(&self) -> (r: bool)
        ensures
            r == self.spec_is_last(),
    {
        self.last
    }

    /// The segment's name.
    pub fn name(&self) -> (r: &str)
        ensures
            r@ == self.name_view(),
    {
        self.name.as_str()
    }
}

impl<'a> SafePath<'a> {
    /// The path this value was made from, with its leading separator
    /// removed.
    pub closed spec fn rel_view(&self) -> Seq<char> {
        self.path@
    }

    /// Wraps a path string, ignoring one leading `/`.
    pub fn from_str(path: &'a str) -> (r: SafePath<'a>)
        ensures
            r.rel_view() == strip_root(path@),
    {
        let n = path.unicode_len();
        if n > 0 && path.get_char(0) == '/' {
            SafePath { path: path.substring_char(1, n) }
        } else {
            proof {
                assert(strip_root(path@) == path@);
            }
            SafePath { path }
        }
    }

    /// Splits the path into its parts, or rejects it if any character is
    /// a colon, backslash or control character. Empty segments from
    /// doubled separators are kept; a trailing separator leaves no part
    /// marked last.
    pub fn parts(&self) -> (r: Result<Vec<PathPart>, VfsError>)
        ensures
            match r {
                Ok(v) => {
                    &&& path_ok(self.rel_view())
                    &&& v@.len() == split_slash(self.rel_view()).len()
                    &&& forall|i: int|
                        0 <= i < v@.len() ==> (#[trigger] v@[i]).name_view() == split_slash(
                            self.rel_view(),
                        )[i]
                    &&& forall|i: int|
                        0 <= i < v@.len() ==> (#[trigger] v@[i]).spec_is_last() == (i == v@.len()
                            - 1 && !ends_in_slash(self.rel_view()))
                },
                Err(e) => !path_ok(self.rel_view()) && e == VfsError::InvalidInput,
            },
    {
        let n = self.path.unicode_len();
        let mut j: usize = 0;
        while j < n
            invariant
                n == self.path@.len(),
                j <= n,
                forall|k: int|
                    0 <= k < j ==> (self.path@[k] == '/' || path_char_ok(#[trigger] self.path@[k])),
            decreases n - j,
        {
            let c = self.path.get_char(j);
            if c != '/' {
                let u = c as u32;
                if c == ':' || c == '\\' || u < 0x20 || (0x7f <= u && u <= 0x9f) {
                    return Err(VfsError::InvalidInput);
                }
            }
            j += 1;
        }
        let names = split_path(self.path);
        let ends = n > 0 && self.path.get_char(n - 1) == '/';
        let mut out: Vec<PathPart> = Vec::new();
        let total = names.len();
        let mut i: usize = 0;
        let ghost segs = split_slash(self.rel_view());
        proof {
            assert(names.deep_view().len() == names@.len());
        }
        while i < total
            invariant
                total == names@.len(),
                i <= total,
                segs == split_slash(self.rel_view()),
                names.deep_view() == segs,
                ends == ends_in_slash(self.rel_view()),
                out@.len() == i,
                forall|k: int| 0 <= k < i ==> (#[trigger] out@[k]).name_view() == segs[k],
                forall|k: int|
                    0 <= k < i ==> (#[trigger] out@[k]).spec_is_last() == (k == total - 1 && !ends),
            decreases total - i,
        {
            let last = i + 1 == total && !ends;
            let part = PathPart { name: names[i].clone(), last };
            proof {
                assert(part.name_view() == names.deep_view()[i as int]);
            }
            out.push(part);
            i += 1;
        }
        Ok(out)
    }
}

} // verus!
