//! Compression of the archives.

use crate::error::{CDResult, CargoDebError};
use crate::tararchive::io_error_text;
use vstd::prelude::*;

verus! {

/// Compressed bytes, and how they were compressed.
pub enum Compressed {
    Gz(Vec<u8>),
    Xz(Vec<u8>),
}

impl Compressed {
    /// The compressed bytes.
    pub open spec fn bytes(&self) -> Seq<u8> {
        match self {
            Compressed::Gz(d) => d@,
            Compressed::Xz(d) => d@,
        }
    }

    /// The compressed bytes.
    pub fn data(&self) -> (r: &Vec<u8>)
        ensures
            r@ == self.bytes(),
    {
        match self {
            Compressed::Gz(d) => d,
            Compressed::Xz(d) => d,
        }
    }

    /// The ending of a file name for these bytes: `gz` or `xz`.
    pub open spec fn ending(&self) -> Seq<char> {
        match self {
            Compressed::Gz(_) => "gz"@,
            Compressed::Xz(_) => "xz"@,
        }
    }

    /// The ending of a file name for these bytes: `gz` or `xz`.
    pub fn extension(&self) -> (r: &'static str)
        ensures
            r@ == self.ending(),
    {
        match self {
            Compressed::Gz(_) => "gz",
            Compressed::Xz(_) => "xz",
        }
    }
}

impl std::ops::Deref for Compressed {
    type Target = Vec<u8>;

    fn deref(&self) -> (r: &Vec<u8>)
        ensures
            r@ == self.bytes(),
    {
        match self {
            Compressed::Gz(data) => data,
            Compressed::Xz(data) => data,
        }
    }
}

/// The gzip stream that zopfli makes of `data` with its default options.
pub uninterp spec fn gzip_of(data: Seq<u8>) -> Seq<u8>;

/// `zopfli::compress` with `Options::default()` and `Format::Gzip` writes a
/// gzip stream of the data into the vector; the stream depends on the data
/// alone. The only errors that it hands on are those of the writer, and
/// writing into a vector has none.
#[verifier::external_body]
fn zopfli_gzip(data: &[u8]) -> (r: Result<Vec<u8>, std::io::Error>)
    ensures
        r is Ok,
        r->Ok_0@ == gzip_of(data@),
{
    let mut compressed = Vec::new();
    zopfli::compress(&zopfli::Options::default(), &zopfli::Format::Gzip, data, &mut compressed)?;
    Ok(compressed)
}

/// What `gz` returns for what the compressor returned.
pub fn gz_result(outcome: Result<Vec<u8>, std::io::Error>) -> (r: CDResult<Vec<u8>>)
    ensures
        match outcome {
            Ok(v) => r == Ok::<Vec<u8>, CargoDebError>(v),
            Err(_) => r matches Err(e) && e is Io,
        },
{
    match outcome {
        Ok(v) => Ok(v),
        Err(e) => Err(CargoDebError::Io(io_error_text(&e))),
    }
}

/// Compresses data with zopfli into a gzip stream. This always succeeds.
pub fn gz(data: &[u8]) -> (r: CDResult<Vec<u8>>)
    ensures
        r matches Ok(v) && v@ == gzip_of(data@),
{
    gz_result(zopfli_gzip(data))
}

/// Compresses data into a gzip stream, whatever `_fast` is: the same as
/// `gz` gives, marked as gzip.
pub fn xz_or_gz(data: &[u8], _fast: bool) -> (r: CDResult<Compressed>)
    ensures
        r matches Ok(Compressed::Gz(v)) && v@ == gzip_of(data@),
{
    match gz(data) {
        Ok(v) => Ok(Compressed::Gz(v)),
        Err(e) => Err(e),
    }
}

} // verus!
