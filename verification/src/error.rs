//! Errors of the in-memory file tree.

use vstd::prelude::*;

verus! {

/// Abstract value of an [`Error`]: the variant together with the path or
/// name it carries.
pub enum ErrView {
    AlreadyExists(Seq<char>),
    NotFound(Seq<char>),
    InvalidPath(Seq<char>),
    IsRoot,
}

/// An error of a file-tree operation. `NotFound` and `AlreadyExists` carry
/// the name of the offending component, `InvalidPath` the whole path.
#[derive(Debug, Clone, PartialEq, Eq)]
pub enum Error {
    AlreadyExists(String),
    NotFound(String),
    InvalidPath(String),
    IsRoot,
}

impl View for Error {
    type V = ErrView;

    open spec fn view(&self) -> ErrView {
        match self {
            Error::AlreadyExists(s) => ErrView::AlreadyExists(s@),
            Error::NotFound(s) => ErrView::NotFound(s@),
            Error::InvalidPath(s) => ErrView::InvalidPath(s@),
            Error::IsRoot => ErrView::IsRoot,
        }
    }
}

impl Error {
    /// A short description of the error, always carrying the offending
    /// path or name.
    pub fn message(&self) -> (r: String)
        ensures
            self matches Error::AlreadyExists(s) ==> r@ == "file already exists: "@ + s@,
            self matches Error::NotFound(s) ==> r@ == "file not found: "@ + s@,
            self matches Error::InvalidPath(s) ==> r@ == "invalid path: "@ + s@,
            self matches Error::IsRoot ==> r@ == "file is root"@,
    {
        match self {
            Error::AlreadyExists(s) => String::from_str("file already exists: ").concat(
                s.as_str(),
            ),
            Error::NotFound(s) => String::from_str("file not found: ").concat(s.as_str()),
            Error::InvalidPath(s) => String::from_str("invalid path: ").concat(s.as_str()),
            Error::IsRoot => String::from_str("file is root"),
        }
    }
}

} // verus!
