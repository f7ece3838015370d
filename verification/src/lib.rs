//! Reader and writer for XFBIN containers: a big-endian archive of typed
//! chunks backed by an index of interned strings.

pub mod error;
pub mod maps;
pub mod nucc;
pub mod nucc_chunk;
pub mod rewrite;
pub mod round_trip;
pub mod single_page;
pub mod table;
pub mod utils;
pub mod xfbin;
pub mod xfbin_file;

use vstd::prelude::*;

use error::NuccError;
use xfbin::spec_xfbin;
use xfbin::spec_xfbin_file;
use xfbin::Xfbin;
use xfbin::XfbinView;
use xfbin_file::spec_file;
use xfbin_file::lemma_file_round_trip;
use xfbin_file::spec_file_bytes;
use xfbin_file::XfbinFile;

pub use nucc_chunk::NuccChunkType;

verus! {

/// The document that the bytes of a file stand for.
pub open spec fn spec_read_xfbin(bytes: Seq<u8>) -> Result<XfbinView, NuccError> {
    match spec_file(bytes) {
        Err(e) => Err(e),
        Ok(file) => spec_xfbin(file),
    }
}

/// Reads a document from the bytes of a file.
pub fn read_xfbin_bytes(bytes: Vec<u8>) -> (r: Result<Xfbin, NuccError>)
    ensures
        r matches Ok(x) ==> spec_read_xfbin(bytes@) == Ok::<XfbinView, NuccError>(x@),
        r matches Err(e) ==> spec_read_xfbin(bytes@) == Err::<XfbinView, NuccError>(e),
{
    match XfbinFile::read(&bytes) {
        Ok(file) => Xfbin::from_file(file),
        Err(e) => Err(e),
    }
}

/// The bytes of the file that a document is written as.
pub open spec fn spec_write_xfbin(xfbin: XfbinView) -> Result<Seq<u8>, NuccError> {
    match spec_xfbin_file(xfbin) {
        Err(e) => Err(e),
        Ok(file) => spec_file_bytes(file),
    }
}

/// Writes a document as the bytes of a file.
pub fn write_xfbin_bytes(xfbin: Xfbin) -> (r: Result<Vec<u8>, NuccError>)
    ensures
        r matches Ok(bytes) ==> spec_write_xfbin(xfbin@) == Ok::<Seq<u8>, NuccError>(bytes@),
        r matches Err(e) ==> spec_write_xfbin(xfbin@) == Err::<Seq<u8>, NuccError>(e),
{
    match XfbinFile::from_xfbin(&xfbin) {
        Ok(file) => file.write(),
        Err(e) => Err(e),
    }
}

/// Reading what was written is turning the container that was written
/// back into a document: nothing is lost between the container and its
/// bytes.
pub proof fn lemma_read_of_written(xfbin: XfbinView)
    requires
        spec_write_xfbin(xfbin) is Ok,
    ensures
        spec_xfbin_file(xfbin) is Ok,
        spec_read_xfbin(spec_write_xfbin(xfbin)->Ok_0) == spec_xfbin(
            spec_xfbin_file(xfbin)->Ok_0,
        ),
{
    lemma_file_round_trip(spec_xfbin_file(xfbin)->Ok_0);
}

} // verus!
