use vstd::prelude::*;

use crate::nucc::NuccStructInfo;
use crate::nucc::StructInfoView;
use crate::nucc_chunk::spec_type_name;
use crate::nucc_chunk::NuccChunk;
use crate::nucc_chunk::NuccChunkType;

verus! {

/// The chunk that opens every page; it carries only a version.
#[derive(Debug, Clone, Copy, PartialEq, Eq, Structural)]
pub struct NuccChunkNull(pub u16);

impl NuccChunk for NuccChunkNull {
    open spec fn spec_chunk_type(&self) -> NuccChunkType {
        NuccChunkType::NuccChunkNull
    }

    open spec fn spec_version(&self) -> u16 {
        self.0
    }

    fn chunk_type(&self) -> (t: NuccChunkType) {
        NuccChunkType::NuccChunkNull
    }

    fn version(&self) -> (v: u16) {
        self.0
    }
}

/// Identity under which the null chunk is entered in the index.
pub open spec fn spec_null_info() -> StructInfoView {
    StructInfoView {
        chunk_name: seq![],
        file_path: seq![],
        chunk_type: spec_type_name(NuccChunkType::NuccChunkNull),
    }
}

impl NuccChunkNull {
    /// Identity under which the null chunk is entered in the index: no
    /// name, no path.
    pub fn default_chunk_info() -> (r: NuccStructInfo)
        ensures
            r@ == spec_null_info(),
    {
        NuccStructInfo {
            chunk_name: String::new(),
            file_path: String::new(),
            chunk_type: NuccChunkType::NuccChunkNull.to_string(),
        }
    }
}

} // verus!
