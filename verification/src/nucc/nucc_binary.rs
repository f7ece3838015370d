//! Opaque binary payloads.

use vstd::prelude::*;

use crate::nucc::spec_blank_info;
use crate::nucc::NuccInfo;
use crate::nucc::NuccStruct;
use crate::nucc::NuccStructInfo;
use crate::nucc::StructInfoView;
use crate::nucc_chunk::nucc_chunk_binary::ChunkBinaryView;
use crate::nucc_chunk::NuccChunkBinary;
use crate::nucc_chunk::NuccChunkType;

verus! {

/// A chunk whose payload the library keeps as it is.
#[derive(Debug, PartialEq, Eq)]
pub struct NuccBinary {
    pub struct_info: NuccStructInfo,
    pub version: u16,
    pub data: Vec<u8>,
}

/// A `NuccBinary` as plain values.
pub struct BinaryView {
    pub struct_info: StructInfoView,
    pub version: u16,
    pub data: Seq<u8>,
}

impl View for NuccBinary {
    type V = BinaryView;

    open spec fn view(&self) -> BinaryView {
        BinaryView { struct_info: self.struct_info@, version: self.version, data: self.data@ }
    }
}

impl NuccInfo for NuccBinary {
    open spec fn spec_struct_info(&self) -> StructInfoView {
        self.struct_info@
    }

    fn struct_info(&self) -> (r: &NuccStructInfo) {
        &self.struct_info
    }

    fn set_struct_info(&mut self, info: NuccStructInfo)
        ensures
            final(self)@ == (BinaryView { struct_info: info@, ..old(self)@ }),
    {
        self.struct_info = info;
    }
}

impl NuccStruct for NuccBinary {
    open spec fn spec_chunk_type(&self) -> NuccChunkType {
        NuccChunkType::NuccChunkBinary
    }

    open spec fn spec_version(&self) -> u16 {
        self.version
    }

    fn chunk_type(&self) -> (t: NuccChunkType) {
        NuccChunkType::NuccChunkBinary
    }

    fn version(&self) -> (v: u16) {
        self.version
    }
}

impl NuccBinary {
    /// The logical chunk of a wire chunk, without an identity.
    pub fn from_chunk(chunk: NuccChunkBinary) -> (r: NuccBinary)
        ensures
            r@ == (BinaryView {
                struct_info: spec_blank_info(),
                version: chunk.version,
                data: chunk.data@,
            }),
    {
        NuccBinary {
            struct_info: NuccStructInfo::default(),
            version: chunk.version,
            data: chunk.data,
        }
    }

    /// The wire chunk of this chunk.
    pub fn into_chunk(self) -> (r: NuccChunkBinary)
        ensures
            r@ == (ChunkBinaryView { version: self.version, data: self.data@ }),
    {
        NuccChunkBinary { version: self.version, data: self.data }
    }
}

} // verus!
