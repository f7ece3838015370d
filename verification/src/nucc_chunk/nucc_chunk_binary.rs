use vstd::prelude::*;

use crate::error::NuccError;
use crate::nucc_chunk::NuccChunk;
use crate::nucc_chunk::NuccChunkType;
use crate::utils::be_u32;
use crate::utils::fits;
use crate::utils::read_bytes;
use crate::utils::read_u32;
use crate::utils::u32_be;
use crate::utils::write_bytes;
use crate::utils::write_u32;

verus! {

/// An opaque blob with its length in front.
#[derive(Debug, PartialEq, Eq)]
pub struct NuccChunkBinary {
    pub version: u16,
    pub data: Vec<u8>,
}

/// A `NuccChunkBinary` as a version and a byte sequence.
pub struct ChunkBinaryView {
    pub version: u16,
    pub data: Seq<u8>,
}

impl View for NuccChunkBinary {
    type V = ChunkBinaryView;

    open spec fn view(&self) -> ChunkBinaryView {
        ChunkBinaryView { version: self.version, data: self.data@ }
    }
}

impl NuccChunk for NuccChunkBinary {
    open spec fn spec_chunk_type(&self) -> NuccChunkType {
        NuccChunkType::NuccChunkBinary
    }

    open spec fn spec_version(&self) -> u16 {
        self.version
    }

    fn chunk_type(&self) -> (t: NuccChunkType) {
        NuccChunkType::NuccChunkBinary
    }

    fn version(&self) -> (v: u16) {
        self.version
    }
}

/// A binary chunk as its payload gives it: a big-endian length, then that
/// many bytes. What follows them is not looked at.
pub open spec fn spec_binary(data: Seq<u8>, version: u16) -> Result<ChunkBinaryView, NuccError> {
    if !fits(data, 0, 4) {
        Err(NuccError::TruncatedInput)
    } else if !fits(data, 4, be_u32(data, 0)) {
        Err(NuccError::TruncatedInput)
    } else {
        Ok(ChunkBinaryView { version, data: data.subrange(4, 4 + be_u32(data, 0)) })
    }
}

/// The payload of a binary chunk; a blob whose length does not fit in 32
/// bits cannot be written.
pub open spec fn spec_binary_bytes(chunk: ChunkBinaryView) -> Result<Seq<u8>, NuccError> {
    if chunk.data.len() > u32::MAX {
        Err(NuccError::CountMismatch)
    } else {
        Ok(u32_be(chunk.data.len() as u32) + chunk.data)
    }
}

impl NuccChunkBinary {
    /// Reads a binary chunk from its payload.
    pub fn read(data: &Vec<u8>, version: u16) -> (r: Result<NuccChunkBinary, NuccError>)
        ensures
            r matches Ok(c) ==> spec_binary(data@, version) == Ok::<ChunkBinaryView, NuccError>(
                c@,
            ),
            r matches Err(e) ==> spec_binary(data@, version) == Err::<ChunkBinaryView, NuccError>(
                e,
            ),
    {
        let size = match read_u32(data, 0) {
            Ok(v) => v,
            Err(e) => { return Err(e); },
        };
        match read_bytes(data, 4, size as usize) {
            Ok(bytes) => Ok(NuccChunkBinary { version, data: bytes }),
            Err(e) => Err(e),
        }
    }

    /// Appends the payload of this binary chunk.
    pub fn write(&self, out: &mut Vec<u8>) -> (r: Result<(), NuccError>)
        ensures
            r is Ok ==> spec_binary_bytes(self@) is Ok && final(out)@ == old(out)@
                + spec_binary_bytes(self@)->Ok_0,
            r matches Err(e) ==> spec_binary_bytes(self@) == Err::<Seq<u8>, NuccError>(e)
                && final(out)@ == old(out)@,
    {
        if self.data.len() > u32::MAX as usize {
            return Err(NuccError::CountMismatch);
        }
        write_u32(out, self.data.len() as u32);
        write_bytes(out, &self.data);
        assert(out@ =~= old(out)@ + (u32_be(self.data.len() as u32) + self.data@));
        Ok(())
    }
}

/// A binary chunk read back from its own payload is the same binary chunk.
pub proof fn lemma_binary_round_trip(chunk: ChunkBinaryView)
    requires
        spec_binary_bytes(chunk) is Ok,
    ensures
        spec_binary(spec_binary_bytes(chunk)->Ok_0, chunk.version) == Ok::<
            ChunkBinaryView,
            NuccError,
        >(chunk),
{
    let b = spec_binary_bytes(chunk)->Ok_0;
    let n = chunk.data.len() as u32;
    assert(b.len() == 4 + chunk.data.len());
    assert(be_u32(b, 0) == n);
    assert(b.subrange(4, 4 + n) =~= chunk.data);
}

} // verus!
