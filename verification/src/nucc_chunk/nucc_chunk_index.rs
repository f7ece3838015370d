use vstd::prelude::*;

use crate::nucc::NuccStructInfo;
use crate::nucc::StructInfoView;
use crate::nucc_chunk::spec_type_name;
use crate::nucc_chunk::NuccChunk;
use crate::nucc_chunk::NuccChunkType;

verus! {

/// Stands for the index itself; it has no payload.
#[derive(Debug, Clone, Copy, PartialEq, Eq, Structural)]
pub struct NuccChunkIndex;

impl NuccChunk for NuccChunkIndex {
    open spec fn spec_chunk_type(&self) -> NuccChunkType {
        NuccChunkType::NuccChunkIndex
    }

    open spec fn spec_version(&self) -> u16 {
        0
    }

    fn chunk_type(&self) -> (t: NuccChunkType) {
        NuccChunkType::NuccChunkIndex
    }

    fn version(&self) -> (v: u16) {
        0
    }
}

/// Identity under which the index is entered in itself.
pub open spec fn spec_index_info() -> StructInfoView {
    StructInfoView {
        chunk_name: "index"@,
        file_path: seq![],
        chunk_type: spec_type_name(NuccChunkType::NuccChunkIndex),
    }
}

impl NuccChunkIndex {
    /// Identity under which the index is entered in itself: the name
    /// `index`, no path.
    pub fn default_chunk_info() -> (r: NuccStructInfo)
        ensures
            r@ == spec_index_info(),
    {
        NuccStructInfo {
            chunk_name: "index".to_owned(),
            file_path: String::new(),
            chunk_type: NuccChunkType::NuccChunkIndex.to_string(),
        }
    }
}

} // verus!
