//! Chunks of a type that the library does not interpret.

use vstd::prelude::*;

use crate::nucc::spec_blank_info;
use crate::nucc::NuccInfo;
use crate::nucc::NuccStruct;
use crate::nucc::NuccStructInfo;
use crate::nucc::StructInfoView;
use crate::nucc_chunk::nucc_chunk_unknown::ChunkUnknownView;
use crate::nucc_chunk::NuccChunkType;
use crate::nucc_chunk::NuccChunkUnknown;

verus! {

/// A chunk of a type that the library does not interpret.
#[derive(Debug, PartialEq, Eq)]
pub struct NuccUnknown {
    pub struct_info: NuccStructInfo,
    pub version: u16,
    pub data: Vec<u8>,
    pub chunk_type: String,
}

/// A `NuccUnknown` as plain values.
pub struct UnknownView {
    pub struct_info: StructInfoView,
    pub version: u16,
    pub data: Seq<u8>,
    pub chunk_type: Seq<char>,
}

impl View for NuccUnknown {
    type V = UnknownView;

    open spec fn view(&self) -> UnknownView {
        UnknownView {
            struct_info: self.struct_info@,
            version: self.version,
            data: self.data@,
            chunk_type: self.chunk_type@,
        }
    }
}

impl NuccInfo for NuccUnknown {
    open spec fn spec_struct_info(&self) -> StructInfoView {
        self.struct_info@
    }

    fn struct_info(&self) -> (r: &NuccStructInfo) {
        &self.struct_info
    }

    fn set_struct_info(&mut self, info: NuccStructInfo)
        ensures
            final(self)@ == (UnknownView { struct_info: info@, ..old(self)@ }),
    {
        self.struct_info = info;
    }
}

impl NuccStruct for NuccUnknown {
    open spec fn spec_chunk_type(&self) -> NuccChunkType {
        NuccChunkType::NuccChunkUnknown
    }

    open spec fn spec_version(&self) -> u16 {
        self.version
    }

    fn chunk_type(&self) -> (t: NuccChunkType) {
        NuccChunkType::NuccChunkUnknown
    }

    fn version(&self) -> (v: u16) {
        self.version
    }
}

impl NuccUnknown {
    /// The logical chunk of a wire chunk, without an identity.
    pub fn from_chunk(chunk: NuccChunkUnknown) -> (r: NuccUnknown)
        ensures
            r@ == (UnknownView {
                struct_info: spec_blank_info(),
                version: chunk.version,
                data: chunk.data@,
                chunk_type: chunk.chunk_type@,
            }),
    {
        NuccUnknown {
            struct_info: NuccStructInfo::default(),
            data: chunk.data,
            chunk_type: chunk.chunk_type,
            version: chunk.version,
        }
    }

    /// The wire chunk of this chunk.
    pub fn into_chunk(self) -> (r: NuccChunkUnknown)
        ensures
            r@ == (ChunkUnknownView {
                data: self.data@,
                chunk_type: self.chunk_type@,
                version: self.version,
            }),
    {
        NuccChunkUnknown { version: self.version, data: self.data, chunk_type: self.chunk_type }
    }
}

} // verus!
