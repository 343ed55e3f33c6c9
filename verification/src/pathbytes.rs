//! Paths as the bytes that an archive stores.

use vstd::prelude::*;
use vstd::string::StrSliceExecFns;
use vstd::utf8::encode_utf8;

verus! {

pub trait AsUnixPathBytes {
    spec fn unix_path(&self) -> Seq<u8>;

    fn as_unix_path(&self) -> (r: Vec<u8>)
        ensures
            r@ == self.unix_path(),
    ;
}

impl AsUnixPathBytes for str {
    /// The path in UTF-8, as it is written.
    open spec fn unix_path(&self) -> Seq<u8> {
        encode_utf8(self@)
    }

    fn as_unix_path(&self) -> (r: Vec<u8>) {
        self.as_bytes_vec()
    }
}

} // verus!
