//! Loading the program to run: a byte buffer read whole from any byte
//! source.

use crate::vfsops::VfsError;
use vstd::prelude::*;

verus! {

/// The bytes of a program or script.
pub struct Bytes(Vec<u8>);

impl View for Bytes {
    type V = Seq<u8>;

    closed spec fn view(&self) -> Seq<u8> {
        self.0@
    }
}

impl Bytes {
    /// Relies on std::io::Read::read_to_end: drains the reader into a
    /// buffer; what arrives depends on the source.
    #[verifier::external_body]
    pub fn from_reader(mut input: impl std::io::Read) -> (r: Result<Bytes, VfsError>) {
        let mut bytes = Vec::new();
        match input.read_to_end(&mut bytes) {
            Ok(_) => Ok(Bytes(bytes)),
            Err(_) => Err(VfsError::InvalidInput),
        }
    }

    /// The buffer's bytes.
    pub fn as_slice(&self) -> (r: &[u8])
        ensures
            r@ == self@,
    {
        self.0.as_slice()
    }
}

impl From<Vec<u8>> for Bytes {
    fn from(bytes: Vec<u8>) -> (r: Bytes) {
        Bytes(bytes)
    }
}

impl vstd::std_specs::convert::FromSpecImpl<Vec<u8>> for Bytes {
    open spec fn obeys_from_spec() -> bool {
        true
    }

    closed spec fn from_spec(v: Vec<u8>) -> Bytes {
        Bytes(v)
    }
}

} // verus!
