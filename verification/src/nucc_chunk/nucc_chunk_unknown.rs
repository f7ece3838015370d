use vstd::prelude::*;

use crate::nucc_chunk::NuccChunk;
use crate::nucc_chunk::NuccChunkType;

verus! {

/// A chunk of a type that the library does not interpret: its payload is
/// kept byte for byte.
#[derive(Debug, PartialEq, Eq)]
pub struct NuccChunkUnknown {
    pub data: Vec<u8>,
    pub chunk_type: String,
    pub version: u16,
}

/// A `NuccChunkUnknown` as plain values.
pub struct ChunkUnknownView {
    pub data: Seq<u8>,
    pub chunk_type: Seq<char>,
    pub version: u16,
}

impl View for NuccChunkUnknown {
    type V = ChunkUnknownView;

    open spec fn view(&self) -> ChunkUnknownView {
        ChunkUnknownView { data: self.data@, chunk_type: self.chunk_type@, version: self.version }
    }
}

impl NuccChunk for NuccChunkUnknown {
    open spec fn spec_chunk_type(&self) -> NuccChunkType {
        NuccChunkType::NuccChunkUnknown
    }

    open spec fn spec_version(&self) -> u16 {
        self.version
    }

    fn chunk_type(&self) -> (t: NuccChunkType) {
        NuccChunkType::NuccChunkUnknown
    }

    fn version(&self) -> (v: u16) {
        self.version
    }
}

} // verus!
