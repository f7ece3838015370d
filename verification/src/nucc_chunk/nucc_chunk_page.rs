use vstd::prelude::*;

use crate::error::NuccError;
use crate::nucc::NuccStructInfo;
use crate::nucc::StructInfoView;
use crate::nucc_chunk::spec_type_name;
use crate::nucc_chunk::NuccChunk;
use crate::nucc_chunk::NuccChunkType;
use crate::utils::be_u32;
use crate::utils::fits;
use crate::utils::read_u32;
use crate::utils::u32_be;
use crate::utils::write_u32;

verus! {

/// The chunk that closes a page: how many index entries and references the
/// page used.
#[derive(Debug, Clone, Copy, PartialEq, Eq, Structural)]
pub struct NuccChunkPage {
    pub version: u16,
    pub map_index_count: u32,
    pub reference_count: u32,
}

impl NuccChunk for NuccChunkPage {
    open spec fn spec_chunk_type(&self) -> NuccChunkType {
        NuccChunkType::NuccChunkPage
    }

    open spec fn spec_version(&self) -> u16 {
        self.version
    }

    fn chunk_type(&self) -> (t: NuccChunkType) {
        NuccChunkType::NuccChunkPage
    }

    fn version(&self) -> (v: u16) {
        self.version
    }
}

impl Default for NuccChunkPage {
    fn default() -> (r: Self)
        ensures
            r == (NuccChunkPage { version: 0, map_index_count: 0, reference_count: 0 }),
    {
        NuccChunkPage { version: 0, map_index_count: 0, reference_count: 0 }
    }
}

/// Identity under which the page chunk is entered in the index.
pub open spec fn spec_page_info() -> StructInfoView {
    StructInfoView {
        chunk_name: "Page0"@,
        file_path: seq![],
        chunk_type: spec_type_name(NuccChunkType::NuccChunkPage),
    }
}

/// A page chunk as its payload gives it: two big-endian counts.
pub open spec fn spec_page(data: Seq<u8>, version: u16) -> Result<NuccChunkPage, NuccError> {
    if !fits(data, 0, 8) {
        Err(NuccError::TruncatedInput)
    } else {
        Ok(
            NuccChunkPage {
                version,
                map_index_count: be_u32(data, 0) as u32,
                reference_count: be_u32(data, 4) as u32,
            },
        )
    }
}

/// The payload of a page chunk.
pub open spec fn spec_page_bytes(page: NuccChunkPage) -> Seq<u8> {
    u32_be(page.map_index_count) + u32_be(page.reference_count)
}

impl NuccChunkPage {
    /// Identity under which the page chunk is entered in the index: the
    /// name `Page0`, no path.
    pub fn default_chunk_info() -> (r: NuccStructInfo)
        ensures
            r@ == spec_page_info(),
    {
        NuccStructInfo {
            chunk_name: "Page0".to_owned(),
            file_path: String::new(),
            chunk_type: NuccChunkType::NuccChunkPage.to_string(),
        }
    }

    /// Reads a page chunk from its payload.
    pub fn read(data: &Vec<u8>, version: u16) -> (r: Result<NuccChunkPage, NuccError>)
        ensures
            r == spec_page(data@, version),
    {
        let map_index_count = match read_u32(data, 0) {
            Ok(v) => v,
            Err(e) => { return Err(e); },
        };
        let reference_count = match read_u32(data, 4) {
            Ok(v) => v,
            Err(e) => { return Err(e); },
        };
        Ok(NuccChunkPage { version, map_index_count, reference_count })
    }

    /// Appends the payload of this page chunk.
    pub fn write(&self, out: &mut Vec<u8>)
        ensures
            final(out)@ == old(out)@ + spec_page_bytes(*self),
    {
        write_u32(out, self.map_index_count);
        write_u32(out, self.reference_count);
        assert(out@ =~= old(out)@ + spec_page_bytes(*self));
    }
}

/// A page chunk read back from its own payload is the same page chunk.
pub proof fn lemma_page_round_trip(page: NuccChunkPage)
    ensures
        spec_page(spec_page_bytes(page), page.version) == Ok::<NuccChunkPage, NuccError>(page),
{
    let b = spec_page_bytes(page);
    assert(b.len() == 8);
    assert(be_u32(b, 0) == page.map_index_count);
    assert(be_u32(b, 4) == page.reference_count);
}

} // verus!
