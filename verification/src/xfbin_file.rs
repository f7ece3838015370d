//! The container as it lies in the file: header, index and chunk frames.

use vstd::prelude::*;

use crate::error::NuccError;
use crate::nucc::views;
use crate::nucc_chunk::nucc_chunk_anm::clump::lemma_u32s_round_trip;
use crate::nucc_chunk::nucc_chunk_anm::clump::read_u32s;
use crate::nucc_chunk::nucc_chunk_anm::clump::spec_u32s;
use crate::nucc_chunk::nucc_chunk_anm::clump::spec_u32s_bytes;
use crate::nucc_chunk::nucc_chunk_anm::clump::write_u32s;
use crate::nucc_chunk::spec_read_struct;
use crate::nucc_chunk::spec_version_of;
use crate::nucc_chunk::spec_write_struct;
use crate::nucc_chunk::AnyChunk;
use crate::nucc_chunk::AnyChunkView;
use crate::nucc_chunk::NuccChunk;
use crate::nucc_chunk::NuccChunkType;
use crate::utils::be_u16;
use crate::utils::cp932_encoded;
use crate::utils::spec_encodable;
use crate::utils::be_u32;
use crate::utils::fits;
use crate::utils::lemma_u16_at;
use crate::utils::lemma_u32_at;
use crate::utils::nul_from;
use crate::utils::pad4;
use crate::utils::read_bytes;
use crate::utils::read_u16;
use crate::utils::read_u32;
use crate::utils::spec_text;
use crate::utils::u16_be;
use crate::utils::u32_be;
use crate::utils::write_bytes;
use crate::utils::write_u16;
use crate::utils::write_u32;
use crate::utils::write_u8;
use crate::utils::write_zeros;
use crate::utils::zeros;
use crate::utils::DekuString;

verus! {

/// The four bytes that open every container.
pub open spec fn spec_magic() -> Seq<u8> {
    seq![0x4Eu8, 0x55u8, 0x43u8, 0x43u8]
}

/// Length of the header.
pub open spec fn header_len() -> int {
    16
}

/// Length of the fixed part that opens the index.
pub open spec fn index_head_len() -> int {
    52
}

/// What every container starts with.
#[derive(Debug, Clone, Copy, PartialEq, Eq, Structural)]
pub struct XfbinHeader {
    pub version: u16,
    pub encrypted: bool,
}

impl Default for XfbinHeader {
    fn default() -> (r: Self)
        ensures
            r == (XfbinHeader { version: 0, encrypted: false }),
    {
        XfbinHeader { version: 0, encrypted: false }
    }
}

/// The header that the first sixteen bytes stand for: the magic, the
/// version as a `u32` of which the lower half is kept, a byte that is
/// passed over, the encryption flag, and six bytes that are passed over.
/// An encrypted container is an `UnsupportedFeature`.
pub open spec fn spec_header(data: Seq<u8>) -> Result<XfbinHeader, NuccError> {
    if !fits(data, 0, 4) {
        Err(NuccError::TruncatedInput)
    } else if data.subrange(0, 4) != spec_magic() {
        Err(NuccError::BadMagic)
    } else if !fits(data, 0, header_len()) {
        Err(NuccError::TruncatedInput)
    } else if data[9] != 0 {
        Err(NuccError::UnsupportedFeature)
    } else {
        Ok(XfbinHeader { version: (be_u32(data, 4) % 0x10000) as u16, encrypted: false })
    }
}

/// The bytes of a header.
pub open spec fn spec_header_bytes(header: XfbinHeader) -> Seq<u8> {
    spec_magic() + u32_be(header.version as u32) + seq![
        0u8,
        if header.encrypted {
            1u8
        } else {
            0u8
        },
    ] + zeros(6)
}

impl XfbinHeader {
    /// Reads the header from the start of the file.
    pub fn read(data: &Vec<u8>) -> (r: Result<XfbinHeader, NuccError>)
        ensures
            r == spec_header(data@),
    {
        if data.len() < 4 {
            return Err(NuccError::TruncatedInput);
        }
        if data[0] != 0x4E || data[1] != 0x55 || data[2] != 0x43 || data[3] != 0x43 {
            assert(data@.subrange(0, 4) != spec_magic()) by {
                let m = data@.subrange(0, 4);
                assert(m[0] == data@[0] && m[1] == data@[1] && m[2] == data@[2] && m[3]
                    == data@[3]);
            }
            return Err(NuccError::BadMagic);
        }
        assert(data@.subrange(0, 4) =~= spec_magic());
        if data.len() < 16 {
            return Err(NuccError::TruncatedInput);
        }
        let version = match read_u32(data, 4) {
            Ok(v) => v,
            Err(e) => { return Err(e); },
        };
        if data[9] != 0 {
            return Err(NuccError::UnsupportedFeature);
        }
        Ok(XfbinHeader { version: (version % 0x10000) as u16, encrypted: false })
    }

    /// Appends the bytes of the header.
    pub fn write(&self, out: &mut Vec<u8>)
        ensures
            final(out)@ == old(out)@ + spec_header_bytes(*self),
    {
        write_u8(out, 0x4E);
        write_u8(out, 0x55);
        write_u8(out, 0x43);
        write_u8(out, 0x43);
        write_u32(out, self.version as u32);
        write_u8(out, 0);
        write_u8(
            out,
            if self.encrypted {
                1
            } else {
                0
            },
        );
        write_zeros(out, 6);
        assert(out@ =~= old(out)@ + spec_header_bytes(*self));
    }
}

/// A pool of NUL-terminated strings, with the number of strings that the
/// index announces for it.
#[derive(Debug, PartialEq, Eq)]
pub struct XfbinDataBuffer {
    pub data: Vec<u8>,
    pub count: u32,
}

/// An `XfbinDataBuffer` as plain values.
pub struct DataBufferView {
    pub data: Seq<u8>,
    pub count: u32,
}

impl View for XfbinDataBuffer {
    type V = DataBufferView;

    open spec fn view(&self) -> DataBufferView {
        DataBufferView { data: self.data@, count: self.count }
    }
}

/// The texts of the NUL-terminated strings that lie one behind the other
/// from `at` on. Bytes behind the last NUL belong to no string. The first
/// string that does not decode decides.
pub open spec fn spec_strings_from(data: Seq<u8>, at: int) -> Result<Seq<Seq<char>>, NuccError>
    decreases data.len() - at,
{
    let end = nul_from(data, at);
    if at < 0 || at >= data.len() || end >= data.len() || end < at {
        Ok(seq![])
    } else {
        match spec_text(data.subrange(at, end)) {
            Err(e) => Err(e),
            Ok(text) => match spec_strings_from(data, end + 1) {
                Err(e) => Err(e),
                Ok(rest) => Ok(seq![text] + rest),
            },
        }
    }
}

/// The texts of a pool. Another number of strings than the index
/// announces is a `CountMismatch`.
pub open spec fn spec_pool_strings(pool: DataBufferView) -> Result<Seq<Seq<char>>, NuccError> {
    match spec_strings_from(pool.data, 0) {
        Err(e) => Err(e),
        Ok(strings) => if strings.len() != pool.count {
            Err(NuccError::CountMismatch)
        } else {
            Ok(strings)
        },
    }
}

/// The bytes of a pool that holds `strings`: each as code page 932 with a
/// closing NUL.
pub open spec fn spec_pool_bytes(strings: Seq<Seq<char>>) -> Seq<u8>
    decreases strings.len(),
{
    if strings.len() == 0 {
        seq![]
    } else {
        spec_pool_bytes(strings.drop_last()) + cp932_encoded(strings.last()).0.push(0u8)
    }
}

/// Whether each of `strings` can be written as code page 932.
pub open spec fn spec_all_encodable(strings: Seq<Seq<char>>) -> bool {
    forall|i: int| 0 <= i < strings.len() ==> spec_encodable(#[trigger] strings[i])
}

impl Default for XfbinDataBuffer {
    fn default() -> (r: Self)
        ensures
            r@ == (DataBufferView { data: seq![], count: 0 }),
    {
        XfbinDataBuffer { data: Vec::new(), count: 0 }
    }
}

impl XfbinDataBuffer {
    /// The pool that holds `strings`; more strings than a `u32` counts are
    /// a `CountMismatch`, and a string that cannot be written as code page
    /// 932 is a `StringDecode` error.
    pub fn from_strings(strings: Vec<String>) -> (r: Result<XfbinDataBuffer, NuccError>)
        ensures
            strings.len() <= u32::MAX && spec_all_encodable(views(strings@)) ==> r is Ok
                && r->Ok_0@ == (DataBufferView {
                data: spec_pool_bytes(views(strings@)),
                count: strings.len() as u32,
            }),
            strings.len() <= u32::MAX && !spec_all_encodable(views(strings@)) ==> r == Err::<
                XfbinDataBuffer,
                NuccError,
            >(NuccError::StringDecode),
            strings.len() > u32::MAX ==> r is Err && r->Err_0 == NuccError::CountMismatch,
    {
        if strings.len() > u32::MAX as usize {
            return Err(NuccError::CountMismatch);
        }
        let count = strings.len() as u32;
        let mut data: Vec<u8> = Vec::new();
        let mut i: usize = 0;
        assert(views(strings@).subrange(0, 0) =~= seq![]);
        while i < strings.len()
            invariant
                i <= strings.len(),
                strings.len() <= u32::MAX,
                count == strings.len(),
                data@ == spec_pool_bytes(views(strings@).subrange(0, i as int)),
                forall|j: int| 0 <= j < i ==> spec_encodable(#[trigger] views(strings@)[j]),
            decreases strings.len() - i,
        {
            assert(views(strings@)[i as int] == strings@[i as int]@);
            let item = match DekuString::from_string(strings[i].clone()) {
                Ok(item) => item,
                Err(e) => {
                    assert(!spec_encodable(views(strings@)[i as int]));
                    return Err(NuccError::StringDecode);
                },
            };
            write_bytes(&mut data, &item.data);
            proof {
                let next = views(strings@).subrange(0, i + 1);
                assert(next.drop_last() =~= views(strings@).subrange(0, i as int));
                assert(next.last() == strings@[i as int]@);
            }
            i += 1;
        }
        assert(views(strings@).subrange(0, strings.len() as int) =~= views(strings@));
        Ok(XfbinDataBuffer { data, count })
    }

    /// The strings of the pool.
    pub fn to_strings(&self) -> (r: Result<Vec<String>, NuccError>)
        ensures
            r matches Ok(strings) ==> spec_pool_strings(self@) == Ok::<
                Seq<Seq<char>>,
                NuccError,
            >(views(strings@)),
            r matches Err(e) ==> spec_pool_strings(self@) == Err::<Seq<Seq<char>>, NuccError>(e),
    {
        let mut strings: Vec<String> = Vec::new();
        let mut at: usize = 0;
        proof {
            assert(views(strings@) =~= seq![]);
            match spec_strings_from(self.data@, 0) {
                Ok(rest) => {
                    assert(Seq::<Seq<char>>::empty() + rest =~= rest);
                },
                Err(e) => {},
            }
        }
        loop
            invariant
                at <= self.data.len(),
                spec_strings_from(self.data@, 0) == (match spec_strings_from(
                    self.data@,
                    at as int,
                ) {
                    Ok(rest) => Ok::<Seq<Seq<char>>, NuccError>(views(strings@) + rest),
                    Err(e) => Err(e),
                }),
            ensures
                spec_strings_from(self.data@, 0) == Ok::<Seq<Seq<char>>, NuccError>(
                    views(strings@),
                ),
            decreases self.data.len() - at,
        {
            let ghost before = views(strings@);
            proof {
                crate::utils::lemma_nul_from(self.data@, at as int);
            }
            let (item, next) = match DekuString::read(&self.data, at) {
                Ok(v) => v,
                Err(e) => {
                    proof {
                        assert(before + Seq::<Seq<char>>::empty() =~= before);
                    }
                    break ;
                },
            };
            let ghost end = nul_from(self.data@, at as int);
            assert(item.body() =~= self.data@.subrange(at as int, end)) by {
                assert(item.data@.last() == 0);
                assert(item.data@.drop_last() =~= self.data@.subrange(at as int, end));
            }
            let text = match item.into_string() {
                Ok(t) => t,
                Err(e) => { return Err(e); },
            };
            proof {
                match spec_strings_from(self.data@, next as int) {
                    Ok(rest) => {
                        assert(before + (seq![text@] + rest) =~= before.push(text@) + rest);
                    },
                    Err(e) => {},
                }
            }
            strings.push(text);
            assert(views(strings@) =~= before.push(text@));
            at = next;
        }
        if strings.len() != self.count as usize {
            return Err(NuccError::CountMismatch);
        }
        Ok(strings)
    }
}

/// An entry of the chunk map: the numbers of a type string, a path and a
/// name in their pools.
#[derive(Debug, Clone, Copy, PartialEq, Eq, Structural)]
pub struct XfbinChunkMap {
    pub chunk_type_index: u32,
    pub file_path_index: u32,
    pub chunk_name_index: u32,
}

/// The `n` chunk map entries stored from `at` on.
pub open spec fn spec_maps(data: Seq<u8>, at: int, n: int) -> Seq<XfbinChunkMap> {
    Seq::new(
        n as nat,
        |i: int|
            XfbinChunkMap {
                chunk_type_index: be_u32(data, at + 12 * i) as u32,
                file_path_index: be_u32(data, at + 12 * i + 4) as u32,
                chunk_name_index: be_u32(data, at + 12 * i + 8) as u32,
            },
    )
}

/// The `n` pairs of `u32` stored from `at` on.
pub open spec fn spec_pairs(data: Seq<u8>, at: int, n: int) -> Seq<(u32, u32)> {
    Seq::new(
        n as nat,
        |i: int| (be_u32(data, at + 8 * i) as u32, be_u32(data, at + 8 * i + 4) as u32),
    )
}

/// The bytes of a chunk map entry.
pub open spec fn spec_map_bytes(map: XfbinChunkMap) -> Seq<u8> {
    u32_be(map.chunk_type_index) + u32_be(map.file_path_index) + u32_be(map.chunk_name_index)
}

/// The bytes of a run of chunk map entries.
pub open spec fn spec_maps_bytes(maps: Seq<XfbinChunkMap>) -> Seq<u8>
    decreases maps.len(),
{
    if maps.len() == 0 {
        seq![]
    } else {
        spec_maps_bytes(maps.drop_last()) + spec_map_bytes(maps.last())
    }
}

/// The bytes of a run of pairs.
pub open spec fn spec_pairs_bytes(pairs: Seq<(u32, u32)>) -> Seq<u8>
    decreases pairs.len(),
{
    if pairs.len() == 0 {
        seq![]
    } else {
        spec_pairs_bytes(pairs.drop_last()) + u32_be(pairs.last().0) + u32_be(pairs.last().1)
    }
}

/// Reads `n` chunk map entries from `at` on.
fn read_maps(data: &Vec<u8>, at: usize, n: u32) -> (r: Result<Vec<XfbinChunkMap>, NuccError>)
    ensures
        fits(data@, at as int, 12 * n) ==> r is Ok && r->Ok_0@ == spec_maps(
            data@,
            at as int,
            n as int,
        ),
        !fits(data@, at as int, 12 * n) ==> r == Err::<Vec<XfbinChunkMap>, NuccError>(
            NuccError::TruncatedInput,
        ),
{
    if data.len() / 12 < n as usize || at > data.len() - 12 * (n as usize) {
        return Err(NuccError::TruncatedInput);
    }
    let mut out: Vec<XfbinChunkMap> = Vec::new();
    let mut i: usize = 0;
    while i < n as usize
        invariant
            i <= n,
            at + 12 * n <= data.len(),
            out@ == spec_maps(data@, at as int, i as int),
        decreases n - i,
    {
        let base: usize = at + 12 * i;
        let chunk_type_index = match read_u32(data, base) {
            Ok(v) => v,
            Err(e) => { return Err(NuccError::TruncatedInput); },
        };
        let file_path_index = match read_u32(data, base + 4) {
            Ok(v) => v,
            Err(e) => { return Err(NuccError::TruncatedInput); },
        };
        let chunk_name_index = match read_u32(data, base + 8) {
            Ok(v) => v,
            Err(e) => { return Err(NuccError::TruncatedInput); },
        };
        out.push(XfbinChunkMap { chunk_type_index, file_path_index, chunk_name_index });
        i += 1;
        assert(out@ =~= spec_maps(data@, at as int, i as int));
    }
    Ok(out)
}

/// Reads `n` pairs of `u32` from `at` on.
fn read_pairs(data: &Vec<u8>, at: usize, n: u32) -> (r: Result<Vec<(u32, u32)>, NuccError>)
    ensures
        fits(data@, at as int, 8 * n) ==> r is Ok && r->Ok_0@ == spec_pairs(
            data@,
            at as int,
            n as int,
        ),
        !fits(data@, at as int, 8 * n) ==> r == Err::<Vec<(u32, u32)>, NuccError>(
            NuccError::TruncatedInput,
        ),
{
    if data.len() / 8 < n as usize || at > data.len() - 8 * (n as usize) {
        return Err(NuccError::TruncatedInput);
    }
    let mut out: Vec<(u32, u32)> = Vec::new();
    let mut i: usize = 0;
    while i < n as usize
        invariant
            i <= n,
            at + 8 * n <= data.len(),
            out@ == spec_pairs(data@, at as int, i as int),
        decreases n - i,
    {
        let base: usize = at + 8 * i;
        let first = match read_u32(data, base) {
            Ok(v) => v,
            Err(e) => { return Err(NuccError::TruncatedInput); },
        };
        let second = match read_u32(data, base + 4) {
            Ok(v) => v,
            Err(e) => { return Err(NuccError::TruncatedInput); },
        };
        out.push((first, second));
        i += 1;
        assert(out@ =~= spec_pairs(data@, at as int, i as int));
    }
    Ok(out)
}

/// Appends a run of chunk map entries.
fn write_maps(out: &mut Vec<u8>, maps: &Vec<XfbinChunkMap>)
    ensures
        final(out)@ == old(out)@ + spec_maps_bytes(maps@),
{
    let mut i: usize = 0;
    while i < maps.len()
        invariant
            i <= maps.len(),
            out@ == old(out)@ + spec_maps_bytes(maps@.subrange(0, i as int)),
        decreases maps.len() - i,
    {
        let map = maps[i];
        write_u32(out, map.chunk_type_index);
        write_u32(out, map.file_path_index);
        write_u32(out, map.chunk_name_index);
        proof {
            let next = maps@.subrange(0, i + 1);
            assert(next.drop_last() =~= maps@.subrange(0, i as int));
            assert(out@ =~= old(out)@ + spec_maps_bytes(next));
        }
        i += 1;
    }
    assert(maps@.subrange(0, maps.len() as int) =~= maps@);
}

/// Appends a run of pairs.
fn write_pairs(out: &mut Vec<u8>, pairs: &Vec<(u32, u32)>)
    ensures
        final(out)@ == old(out)@ + spec_pairs_bytes(pairs@),
{
    let mut i: usize = 0;
    while i < pairs.len()
        invariant
            i <= pairs.len(),
            out@ == old(out)@ + spec_pairs_bytes(pairs@.subrange(0, i as int)),
        decreases pairs.len() - i,
    {
        let pair = pairs[i];
        write_u32(out, pair.0);
        write_u32(out, pair.1);
        proof {
            let next = pairs@.subrange(0, i + 1);
            assert(next.drop_last() =~= pairs@.subrange(0, i as int));
            assert(out@ =~= old(out)@ + spec_pairs_bytes(next));
        }
        i += 1;
    }
    assert(pairs@.subrange(0, pairs.len() as int) =~= pairs@);
}

/// The index of a container: three pools of strings, the chunk map over
/// them, the references, and the list that assigns a chunk map entry to
/// every chunk of every page.
#[derive(Debug, PartialEq, Eq)]
pub struct XfbinIndex {
    pub min_page_size: u32,
    pub version: u16,
    pub unknown: u16,
    pub chunk_types: XfbinDataBuffer,
    pub file_paths: XfbinDataBuffer,
    pub chunk_names: XfbinDataBuffer,
    pub chunk_maps: Vec<XfbinChunkMap>,
    pub chunk_references: Vec<(u32, u32)>,
    pub chunk_map_indices: Vec<u32>,
}

/// An `XfbinIndex` as plain values.
pub struct IndexView {
    pub min_page_size: u32,
    pub version: u16,
    pub unknown: u16,
    pub chunk_types: DataBufferView,
    pub file_paths: DataBufferView,
    pub chunk_names: DataBufferView,
    pub chunk_maps: Seq<XfbinChunkMap>,
    pub chunk_references: Seq<(u32, u32)>,
    pub chunk_map_indices: Seq<u32>,
}

impl View for XfbinIndex {
    type V = IndexView;

    open spec fn view(&self) -> IndexView {
        IndexView {
            min_page_size: self.min_page_size,
            version: self.version,
            unknown: self.unknown,
            chunk_types: self.chunk_types@,
            file_paths: self.file_paths@,
            chunk_names: self.chunk_names@,
            chunk_maps: self.chunk_maps@,
            chunk_references: self.chunk_references@,
            chunk_map_indices: self.chunk_map_indices@,
        }
    }
}

/// The fixed part that opens the index: the size of the tables, the
/// smallest page size, version and an unknown field, then count and byte
/// length of each pool and of the chunk map, and the counts of map indices
/// and of references.
#[derive(Debug, Clone, Copy, PartialEq, Eq)]
pub struct IndexHead {
    pub table_size: u32,
    pub min_page_size: u32,
    pub version: u16,
    pub unknown: u16,
    pub types: (u32, u32),
    pub paths: (u32, u32),
    pub names: (u32, u32),
    pub maps: (u32, u32),
    pub map_index_count: u32,
    pub reference_count: u32,
}

/// The fixed part stored at `at`.
pub open spec fn spec_head_at(data: Seq<u8>, at: int) -> IndexHead {
    IndexHead {
        table_size: be_u32(data, at) as u32,
        min_page_size: be_u32(data, at + 4) as u32,
        version: be_u16(data, at + 8) as u16,
        unknown: be_u16(data, at + 10) as u16,
        types: (be_u32(data, at + 12) as u32, be_u32(data, at + 16) as u32),
        paths: (be_u32(data, at + 20) as u32, be_u32(data, at + 24) as u32),
        names: (be_u32(data, at + 28) as u32, be_u32(data, at + 32) as u32),
        maps: (be_u32(data, at + 36) as u32, be_u32(data, at + 40) as u32),
        map_index_count: be_u32(data, at + 44) as u32,
        reference_count: be_u32(data, at + 48) as u32,
    }
}

/// The bytes of the first four fields of a fixed part.
pub open spec fn spec_head_opening(head: IndexHead) -> Seq<u8> {
    u32_be(head.table_size) + u32_be(head.min_page_size) + u16_be(head.version) + u16_be(
        head.unknown,
    )
}

/// The bytes of the counts and lengths of the three pools.
pub open spec fn spec_head_pools(head: IndexHead) -> Seq<u8> {
    u32_be(head.types.0) + u32_be(head.types.1) + u32_be(head.paths.0) + u32_be(head.paths.1)
        + u32_be(head.names.0) + u32_be(head.names.1)
}

/// The bytes of the counts of the tables.
pub open spec fn spec_head_tables(head: IndexHead) -> Seq<u8> {
    u32_be(head.maps.0) + u32_be(head.maps.1) + u32_be(head.map_index_count) + u32_be(
        head.reference_count,
    )
}

/// The bytes of a fixed part.
#[verifier::opaque]
pub open spec fn spec_head_bytes(head: IndexHead) -> Seq<u8> {
    spec_head_opening(head) + spec_head_pools(head) + spec_head_tables(head)
}

impl IndexHead {
    /// Reads the fixed part stored at `at`.
    pub fn read(data: &Vec<u8>, at: usize) -> (r: Result<IndexHead, NuccError>)
        ensures
            fits(data@, at as int, index_head_len()) ==> r == Ok::<IndexHead, NuccError>(
                spec_head_at(data@, at as int),
            ),
            !fits(data@, at as int, index_head_len()) ==> r == Err::<IndexHead, NuccError>(
                NuccError::TruncatedInput,
            ),
    {
        if data.len() < 52 || at > data.len() - 52 {
            return Err(NuccError::TruncatedInput);
        }
        let table_size = read_u32(data, at).unwrap();
        let min_page_size = read_u32(data, at + 4).unwrap();
        let version = read_u16(data, at + 8).unwrap();
        let unknown = read_u16(data, at + 10).unwrap();
        let types_count = read_u32(data, at + 12).unwrap();
        let types_len = read_u32(data, at + 16).unwrap();
        let paths_count = read_u32(data, at + 20).unwrap();
        let paths_len = read_u32(data, at + 24).unwrap();
        let names_count = read_u32(data, at + 28).unwrap();
        let names_len = read_u32(data, at + 32).unwrap();
        let maps_count = read_u32(data, at + 36).unwrap();
        let maps_len = read_u32(data, at + 40).unwrap();
        let map_index_count = read_u32(data, at + 44).unwrap();
        let reference_count = read_u32(data, at + 48).unwrap();
        Ok(
            IndexHead {
                table_size,
                min_page_size,
                version,
                unknown,
                types: (types_count, types_len),
                paths: (paths_count, paths_len),
                names: (names_count, names_len),
                maps: (maps_count, maps_len),
                map_index_count,
                reference_count,
            },
        )
    }

    /// Appends the bytes of the fixed part.
    pub fn write(&self, out: &mut Vec<u8>)
        ensures
            final(out)@ == old(out)@ + spec_head_bytes(*self),
    {
        write_u32(out, self.table_size);
        write_u32(out, self.min_page_size);
        write_u16(out, self.version);
        write_u16(out, self.unknown);
        let ghost s1 = out@;
        assert(s1 =~= old(out)@ + spec_head_opening(*self));
        write_u32(out, self.types.0);
        write_u32(out, self.types.1);
        write_u32(out, self.paths.0);
        write_u32(out, self.paths.1);
        write_u32(out, self.names.0);
        write_u32(out, self.names.1);
        let ghost s2 = out@;
        assert(s2 =~= s1 + spec_head_pools(*self));
        write_u32(out, self.maps.0);
        write_u32(out, self.maps.1);
        write_u32(out, self.map_index_count);
        write_u32(out, self.reference_count);
        assert(out@ =~= s2 + spec_head_tables(*self));
        reveal(spec_head_bytes);
        assert(out@ =~= old(out)@ + spec_head_bytes(*self));
    }
}

/// The index that follows a fixed part `head`, which lies at `at`, and the
/// position behind it. The pools follow the fixed part, then padding to a
/// multiple of four of their length together, then chunk map, references
/// and map indices. The size of the tables and the byte length of the
/// chunk map, as the fixed part states them, are not looked at.
#[verifier::opaque]
pub open spec fn spec_index_body(data: Seq<u8>, at: int, head: IndexHead) -> Result<
    (IndexView, int),
    NuccError,
> {
    let types_at = at + index_head_len();
    let paths_at = types_at + head.types.1;
    let names_at = paths_at + head.paths.1;
    let pools = head.types.1 + head.paths.1 + head.names.1;
    let maps_at = names_at + head.names.1 + pad4(pools);
    let references_at = maps_at + 12 * head.maps.0;
    let indices_at = references_at + 8 * head.reference_count;
    if !fits(data, types_at, pools + pad4(pools)) {
        Err(NuccError::TruncatedInput)
    } else if !fits(data, maps_at, 12 * head.maps.0) {
        Err(NuccError::TruncatedInput)
    } else if !fits(data, references_at, 8 * head.reference_count) {
        Err(NuccError::TruncatedInput)
    } else if !fits(data, indices_at, 4 * head.map_index_count) {
        Err(NuccError::TruncatedInput)
    } else {
        Ok(
            (
                IndexView {
                    min_page_size: head.min_page_size,
                    version: head.version,
                    unknown: head.unknown,
                    chunk_types: DataBufferView {
                        data: data.subrange(types_at, paths_at),
                        count: head.types.0,
                    },
                    file_paths: DataBufferView {
                        data: data.subrange(paths_at, names_at),
                        count: head.paths.0,
                    },
                    chunk_names: DataBufferView {
                        data: data.subrange(names_at, names_at + head.names.1),
                        count: head.names.0,
                    },
                    chunk_maps: spec_maps(data, maps_at, head.maps.0 as int),
                    chunk_references: spec_pairs(data, references_at, head.reference_count as int),
                    chunk_map_indices: spec_u32s(data, indices_at, head.map_index_count as int),
                },
                indices_at + 4 * head.map_index_count,
            ),
        )
    }
}

/// The index stored at `at`, and the position behind it.
pub open spec fn spec_index(data: Seq<u8>, at: int) -> Result<(IndexView, int), NuccError> {
    if !fits(data, at, index_head_len()) {
        Err(NuccError::TruncatedInput)
    } else {
        spec_index_body(data, at, spec_head_at(data, at))
    }
}

/// The byte length of the three pools together.
pub open spec fn spec_pools_len(index: IndexView) -> int {
    (index.chunk_types.data.len() + index.file_paths.data.len() + index.chunk_names.data.len()) as int
}

/// The size of the tables, as the index states it of itself: the fixed
/// part from the count of type strings on, the pools with their padding,
/// the chunk map and the map indices. The references are not counted.
pub open spec fn spec_table_size(index: IndexView) -> int {
    0x28 + spec_pools_len(index) + pad4(spec_pools_len(index)) + 12 * index.chunk_maps.len() + 4
        * index.chunk_map_indices.len()
}

/// Whether every count and length of the index fits its 32-bit field.
pub open spec fn spec_index_fits(index: IndexView) -> bool {
    &&& spec_table_size(index) <= u32::MAX
    &&& index.chunk_references.len() <= u32::MAX
}

/// The fixed part that an index is written with: every count and length
/// as the tables have it.
pub open spec fn spec_head_of(index: IndexView) -> IndexHead {
    IndexHead {
        table_size: spec_table_size(index) as u32,
        min_page_size: index.min_page_size,
        version: index.version,
        unknown: index.unknown,
        types: (index.chunk_types.count, index.chunk_types.data.len() as u32),
        paths: (index.file_paths.count, index.file_paths.data.len() as u32),
        names: (index.chunk_names.count, index.chunk_names.data.len() as u32),
        maps: (index.chunk_maps.len() as u32, (12 * index.chunk_maps.len()) as u32),
        map_index_count: index.chunk_map_indices.len() as u32,
        reference_count: index.chunk_references.len() as u32,
    }
}

/// The bytes of the fixed part that opens the index.
pub open spec fn spec_index_head(index: IndexView) -> Seq<u8> {
    spec_head_bytes(spec_head_of(index))
}

/// The three pools one behind the other, padded with zeros to a multiple
/// of four.
pub open spec fn spec_pools_bytes(index: IndexView) -> Seq<u8> {
    index.chunk_types.data + index.file_paths.data + index.chunk_names.data + zeros(
        pad4(spec_pools_len(index)),
    )
}

/// The bytes of an index; a count or length that does not fit its field is
/// a `CountMismatch`.
pub open spec fn spec_index_bytes(index: IndexView) -> Result<Seq<u8>, NuccError> {
    if !spec_index_fits(index) {
        Err(NuccError::CountMismatch)
    } else {
        Ok(
            spec_index_head(index) + spec_pools_bytes(index) + spec_maps_bytes(index.chunk_maps)
                + spec_pairs_bytes(index.chunk_references) + spec_u32s_bytes(
                index.chunk_map_indices,
            ),
        )
    }
}

impl Default for XfbinIndex {
    fn default() -> (r: Self)
        ensures
            r@ == (IndexView {
                min_page_size: 0,
                version: 0,
                unknown: 0,
                chunk_types: DataBufferView { data: seq![], count: 0 },
                file_paths: DataBufferView { data: seq![], count: 0 },
                chunk_names: DataBufferView { data: seq![], count: 0 },
                chunk_maps: seq![],
                chunk_references: seq![],
                chunk_map_indices: seq![],
            }),
    {
        XfbinIndex {
            min_page_size: 0,
            version: 0,
            unknown: 0,
            chunk_types: XfbinDataBuffer::default(),
            file_paths: XfbinDataBuffer::default(),
            chunk_names: XfbinDataBuffer::default(),
            chunk_maps: Vec::new(),
            chunk_references: Vec::new(),
            chunk_map_indices: Vec::new(),
        }
    }
}

impl XfbinIndex {
    /// Reads the index that follows the fixed part `head`, which lies at
    /// `at`; gives it with the position behind it.
    pub fn read_body(data: &Vec<u8>, at: usize, head: IndexHead) -> (r: Result<
        (XfbinIndex, usize),
        NuccError,
    >)
        requires
            fits(data@, at as int, index_head_len()),
        ensures
            r matches Ok((index, end)) ==> spec_index_body(data@, at as int, head) == Ok::<
                (IndexView, int),
                NuccError,
            >((index@, end as int)),
            r matches Err(e) ==> spec_index_body(data@, at as int, head) == Err::<
                (IndexView, int),
                NuccError,
            >(e),
    {
        reveal(spec_index_body);
        let types_len = head.types.1 as u64;
        let paths_len = head.paths.1 as u64;
        let names_len = head.names.1 as u64;
        let pools: u64 = types_len + paths_len + names_len;
        let rem: u64 = pools % 4;
        let pad: u64 = if rem == 0 {
            0
        } else {
            4 - rem
        };
        assert(pad == pad4(pools as int));
        let total: usize = data.len();
        let types_at: usize = at + 52;
        let left: u64 = (total - types_at) as u64;
        if left < pools + pad {
            return Err(NuccError::TruncatedInput);
        }
        let paths_at: usize = types_at + types_len as usize;
        let names_at: usize = paths_at + paths_len as usize;
        let maps_at: usize = names_at + names_len as usize + pad as usize;
        let chunk_types = XfbinDataBuffer {
            data: read_bytes(data, types_at, types_len as usize).unwrap(),
            count: head.types.0,
        };
        let file_paths = XfbinDataBuffer {
            data: read_bytes(data, paths_at, paths_len as usize).unwrap(),
            count: head.paths.0,
        };
        let chunk_names = XfbinDataBuffer {
            data: read_bytes(data, names_at, names_len as usize).unwrap(),
            count: head.names.0,
        };
        let chunk_maps = match read_maps(data, maps_at, head.maps.0) {
            Ok(v) => v,
            Err(e) => { return Err(e); },
        };
        let references_at: usize = maps_at + 12 * (head.maps.0 as usize);
        let chunk_references = match read_pairs(data, references_at, head.reference_count) {
            Ok(v) => v,
            Err(e) => { return Err(e); },
        };
        let indices_at: usize = references_at + 8 * (head.reference_count as usize);
        let chunk_map_indices = match read_u32s(data, indices_at, head.map_index_count as usize) {
            Ok(v) => v,
            Err(e) => { return Err(e); },
        };
        Ok(
            (
                XfbinIndex {
                    min_page_size: head.min_page_size,
                    version: head.version,
                    unknown: head.unknown,
                    chunk_types,
                    file_paths,
                    chunk_names,
                    chunk_maps,
                    chunk_references,
                    chunk_map_indices,
                },
                indices_at + 4 * (head.map_index_count as usize),
            ),
        )
    }

    /// Reads the index stored at `at`; gives it with the position behind
    /// it.
    pub fn read(data: &Vec<u8>, at: usize) -> (r: Result<(XfbinIndex, usize), NuccError>)
        ensures
            r matches Ok((index, end)) ==> spec_index(data@, at as int) == Ok::<
                (IndexView, int),
                NuccError,
            >((index@, end as int)),
            r matches Err(e) ==> spec_index(data@, at as int) == Err::<
                (IndexView, int),
                NuccError,
            >(e),
    {
        let head = match IndexHead::read(data, at) {
            Ok(h) => h,
            Err(e) => { return Err(e); },
        };
        XfbinIndex::read_body(data, at, head)
    }

    /// The size of the tables, as the index states it of itself.
    pub fn calculate_table_size(&self) -> (r: Option<u32>)
        ensures
            r == (if spec_table_size(self@) <= u32::MAX {
                Some(spec_table_size(self@) as u32)
            } else {
                None
            }),
    {
        let limit: usize = u32::MAX as usize;
        if self.chunk_types.data.len() > limit || self.file_paths.data.len() > limit
            || self.chunk_names.data.len() > limit || self.chunk_maps.len() > limit
            || self.chunk_map_indices.len() > limit {
            return None;
        }
        let pools: u64 = self.chunk_types.data.len() as u64 + self.file_paths.data.len() as u64
            + self.chunk_names.data.len() as u64;
        let rem: u64 = pools % 4;
        let pad: u64 = if rem == 0 {
            0
        } else {
            4 - rem
        };
        assert(pad == pad4(pools as int));
        let total: u64 = 0x28 + pools + pad + 12 * (self.chunk_maps.len() as u64) + 4 * (
        self.chunk_map_indices.len() as u64);
        if total > u32::MAX as u64 {
            None
        } else {
            Some(total as u32)
        }
    }

    /// The fixed part that the index is written with.
    fn head(&self, table_size: u32) -> (r: IndexHead)
        requires
            spec_index_fits(self@),
            table_size == spec_table_size(self@),
        ensures
            r == spec_head_of(self@),
    {
        IndexHead {
            table_size,
            min_page_size: self.min_page_size,
            version: self.version,
            unknown: self.unknown,
            types: (self.chunk_types.count, self.chunk_types.data.len() as u32),
            paths: (self.file_paths.count, self.file_paths.data.len() as u32),
            names: (self.chunk_names.count, self.chunk_names.data.len() as u32),
            maps: (self.chunk_maps.len() as u32, (12 * self.chunk_maps.len()) as u32),
            map_index_count: self.chunk_map_indices.len() as u32,
            reference_count: self.chunk_references.len() as u32,
        }
    }

    /// Appends the pools and the padding behind them.
    fn write_pools(&self, out: &mut Vec<u8>)
        requires
            spec_index_fits(self@),
        ensures
            final(out)@ == old(out)@ + spec_pools_bytes(self@),
    {
        write_bytes(out, &self.chunk_types.data);
        write_bytes(out, &self.file_paths.data);
        write_bytes(out, &self.chunk_names.data);
        let pools: usize = self.chunk_types.data.len() + self.file_paths.data.len()
            + self.chunk_names.data.len();
        let rem: usize = pools % 4;
        let pad: usize = if rem == 0 {
            0
        } else {
            4 - rem
        };
        assert(pad == pad4(pools as int));
        write_zeros(out, pad);
        assert(out@ =~= old(out)@ + spec_pools_bytes(self@));
    }

    /// Appends the bytes of the index.
    pub fn write(&self, out: &mut Vec<u8>) -> (r: Result<(), NuccError>)
        ensures
            r is Ok ==> spec_index_bytes(self@) is Ok && final(out)@ == old(out)@
                + spec_index_bytes(self@)->Ok_0,
            r matches Err(e) ==> spec_index_bytes(self@) == Err::<Seq<u8>, NuccError>(e)
                && final(out)@ == old(out)@,
    {
        let table_size = match self.calculate_table_size() {
            Some(n) => n,
            None => { return Err(NuccError::CountMismatch); },
        };
        if self.chunk_references.len() > u32::MAX as usize {
            return Err(NuccError::CountMismatch);
        }
        let head = self.head(table_size);
        head.write(out);
        let ghost s1 = out@;
        self.write_pools(out);
        let ghost s3 = out@;
        write_maps(out, &self.chunk_maps);
        let ghost s4 = out@;
        write_pairs(out, &self.chunk_references);
        let ghost s5 = out@;
        write_u32s(out, &self.chunk_map_indices);
        proof {
            let o = old(out)@;
            let a = spec_index_head(self@);
            let p = spec_pools_bytes(self@);
            let d = spec_maps_bytes(self@.chunk_maps);
            let e = spec_pairs_bytes(self@.chunk_references);
            let f = spec_u32s_bytes(self@.chunk_map_indices);
            assert(s1 == o + a);
            assert(s3 == s1 + p);
            assert(s4 == s3 + d);
            assert(s5 == s4 + e);
            assert(out@ == s5 + f);
            assert((o + a) + p =~= o + (a + p));
            assert((o + (a + p)) + d =~= o + (a + p + d));
            assert((o + (a + p + d)) + e =~= o + (a + p + d + e));
            assert((o + (a + p + d + e)) + f =~= o + (a + p + d + e + f));
        }
        Ok(())
    }
}

/// One chunk in its frame: which chunk map entry of its page it belongs
/// to, its version, and its payload.
#[derive(Debug, PartialEq, Eq)]
pub struct XfbinChunk {
    pub chunk_map_index: u32,
    pub version: u16,
    pub chunk_buffer: Vec<u8>,
}

/// An `XfbinChunk` as plain values.
pub struct ChunkFrameView {
    pub chunk_map_index: u32,
    pub version: u16,
    pub chunk_buffer: Seq<u8>,
}

impl View for XfbinChunk {
    type V = ChunkFrameView;

    open spec fn view(&self) -> ChunkFrameView {
        ChunkFrameView {
            chunk_map_index: self.chunk_map_index,
            version: self.version,
            chunk_buffer: self.chunk_buffer@,
        }
    }
}

/// Length of what precedes the payload in a frame.
pub open spec fn frame_head_len() -> int {
    12
}

/// Whether a whole frame lies at `at`: its fixed part, which gives the
/// length of the payload, the chunk map index, the version and two bytes
/// that are passed over, and then the payload.
pub open spec fn spec_frame_fits(data: Seq<u8>, at: int) -> bool {
    fits(data, at, frame_head_len()) && fits(data, at + frame_head_len(), be_u32(data, at))
}

/// The frame stored at `at`.
pub open spec fn spec_frame_at(data: Seq<u8>, at: int) -> ChunkFrameView {
    ChunkFrameView {
        chunk_map_index: be_u32(data, at + 4) as u32,
        version: be_u16(data, at + 8) as u16,
        chunk_buffer: data.subrange(
            at + frame_head_len(),
            at + frame_head_len() + be_u32(data, at),
        ),
    }
}

/// The frames stored one behind the other from `at` on, up to the first
/// place where no whole frame is left. What is left there is passed over.
pub open spec fn spec_frames(data: Seq<u8>, at: int) -> Seq<ChunkFrameView>
    decreases data.len() - at,
{
    if !spec_frame_fits(data, at) {
        seq![]
    } else {
        seq![spec_frame_at(data, at)] + spec_frames(
            data,
            at + frame_head_len() + be_u32(data, at),
        )
    }
}

/// The bytes of a frame; a payload whose length does not fit in 32 bits is
/// a `CountMismatch`.
pub open spec fn spec_frame_bytes(frame: ChunkFrameView) -> Result<Seq<u8>, NuccError> {
    if frame.chunk_buffer.len() > u32::MAX {
        Err(NuccError::CountMismatch)
    } else {
        Ok(
            u32_be(frame.chunk_buffer.len() as u32) + u32_be(frame.chunk_map_index) + u16_be(
                frame.version,
            ) + zeros(2) + frame.chunk_buffer,
        )
    }
}

/// The bytes of a run of frames; the first frame that cannot be written
/// decides.
pub open spec fn spec_frames_bytes(frames: Seq<ChunkFrameView>) -> Result<Seq<u8>, NuccError>
    decreases frames.len(),
{
    if frames.len() == 0 {
        Ok(seq![])
    } else {
        match spec_frames_bytes(frames.drop_last()) {
            Err(e) => Err(e),
            Ok(front) => match spec_frame_bytes(frames.last()) {
                Err(e) => Err(e),
                Ok(back) => Ok(front + back),
            },
        }
    }
}

/// When the frames before the `k`-th can be written and the `k`-th cannot,
/// the run fails as the `k`-th does.
proof fn lemma_frames_bytes_err(frames: Seq<ChunkFrameView>, k: int)
    requires
        0 <= k < frames.len(),
        spec_frames_bytes(frames.subrange(0, k)) is Ok,
        spec_frame_bytes(frames[k]) is Err,
    ensures
        spec_frames_bytes(frames) == Err::<Seq<u8>, NuccError>(spec_frame_bytes(frames[k])->Err_0),
    decreases frames.len(),
{
    if k == frames.len() - 1 {
        assert(frames.drop_last() =~= frames.subrange(0, k));
    } else {
        assert(frames.drop_last().subrange(0, k) =~= frames.subrange(0, k));
        lemma_frames_bytes_err(frames.drop_last(), k);
    }
}

impl Default for XfbinChunk {
    fn default() -> (r: Self)
        ensures
            r@ == (ChunkFrameView { chunk_map_index: 0, version: 0, chunk_buffer: seq![] }),
    {
        XfbinChunk { chunk_map_index: 0, version: 0, chunk_buffer: Vec::new() }
    }
}

impl XfbinChunk {
    /// Reads the frame stored at `at`, if a whole frame lies there; gives
    /// it with the position behind it.
    pub fn read(data: &Vec<u8>, at: usize) -> (r: Option<(XfbinChunk, usize)>)
        ensures
            r is Some <==> spec_frame_fits(data@, at as int),
            r matches Some((frame, next)) ==> frame@ == spec_frame_at(data@, at as int) && next
                == at + frame_head_len() + be_u32(data@, at as int),
    {
        if data.len() < 12 || at > data.len() - 12 {
            return None;
        }
        let size = read_u32(data, at).unwrap() as usize;
        let chunk_map_index = read_u32(data, at + 4).unwrap();
        let version = read_u16(data, at + 8).unwrap();
        if data.len() - (at + 12) < size {
            return None;
        }
        let chunk_buffer = read_bytes(data, at + 12, size).unwrap();
        Some((XfbinChunk { chunk_map_index, version, chunk_buffer }, at + 12 + size))
    }

    /// Appends the bytes of the frame.
    pub fn write(&self, out: &mut Vec<u8>) -> (r: Result<(), NuccError>)
        ensures
            r is Ok ==> spec_frame_bytes(self@) is Ok && final(out)@ == old(out)@
                + spec_frame_bytes(self@)->Ok_0,
            r matches Err(e) ==> spec_frame_bytes(self@) == Err::<Seq<u8>, NuccError>(e)
                && final(out)@ == old(out)@,
    {
        if self.chunk_buffer.len() > u32::MAX as usize {
            return Err(NuccError::CountMismatch);
        }
        write_u32(out, self.chunk_buffer.len() as u32);
        write_u32(out, self.chunk_map_index);
        write_u16(out, self.version);
        write_zeros(out, 2);
        write_bytes(out, &self.chunk_buffer);
        assert(out@ =~= old(out)@ + spec_frame_bytes(self@)->Ok_0);
        Ok(())
    }

    /// The chunk that the payload of the frame stands for under a type
    /// string.
    pub fn unpack(self, chunk_type: &str) -> (r: Result<AnyChunk, NuccError>)
        ensures
            r matches Ok(c) ==> spec_read_struct(self@.chunk_buffer, chunk_type@, self.version)
                == Ok::<AnyChunkView, NuccError>(c@),
            r matches Err(e) ==> spec_read_struct(self@.chunk_buffer, chunk_type@, self.version)
                == Err::<AnyChunkView, NuccError>(e),
    {
        NuccChunkType::read_struct(&self.chunk_buffer, chunk_type, self.version)
    }

    /// The frame of a chunk, with the chunk map index still to be set.
    pub fn repack(chunk: &AnyChunk) -> (r: Result<XfbinChunk, NuccError>)
        ensures
            r matches Ok(frame) ==> spec_write_struct(chunk@) is Ok && frame@ == (ChunkFrameView {
                chunk_map_index: 0,
                version: spec_version_of(chunk@),
                chunk_buffer: spec_write_struct(chunk@)->Ok_0,
            }),
            r matches Err(e) ==> spec_write_struct(chunk@) == Err::<Seq<u8>, NuccError>(e),
    {
        let version = chunk.version();
        match NuccChunkType::write_struct(chunk) {
            Ok(chunk_buffer) => Ok(XfbinChunk { chunk_map_index: 0, version, chunk_buffer }),
            Err(e) => Err(e),
        }
    }
}

/// A whole container as it lies in the file.
#[derive(Debug, PartialEq, Eq)]
pub struct XfbinFile {
    pub header: XfbinHeader,
    pub index: XfbinIndex,
    pub chunks: Vec<XfbinChunk>,
}

/// An `XfbinFile` as plain values.
pub struct FileView {
    pub header: XfbinHeader,
    pub index: IndexView,
    pub chunks: Seq<ChunkFrameView>,
}

impl View for XfbinFile {
    type V = FileView;

    open spec fn view(&self) -> FileView {
        FileView { header: self.header, index: self.index@, chunks: views(self.chunks@) }
    }
}

/// The container that a file stands for: header, index, and the frames
/// that follow the index.
pub open spec fn spec_file(data: Seq<u8>) -> Result<FileView, NuccError> {
    match spec_header(data) {
        Err(e) => Err(e),
        Ok(header) => match spec_index(data, header_len()) {
            Err(e) => Err(e),
            Ok((index, frames_at)) => Ok(
                FileView { header, index, chunks: spec_frames(data, frames_at) },
            ),
        },
    }
}

/// The bytes of a container.
pub open spec fn spec_file_bytes(file: FileView) -> Result<Seq<u8>, NuccError> {
    match spec_index_bytes(file.index) {
        Err(e) => Err(e),
        Ok(index) => match spec_frames_bytes(file.chunks) {
            Err(e) => Err(e),
            Ok(frames) => Ok(spec_header_bytes(file.header) + index + frames),
        },
    }
}

impl XfbinFile {
    /// Reads the frames stored from `at` on.
    pub fn read_chunks(data: &Vec<u8>, at: usize) -> (r: Vec<XfbinChunk>)
        ensures
            views(r@) == spec_frames(data@, at as int),
    {
        let mut chunks: Vec<XfbinChunk> = Vec::new();
        let mut cur: usize = at;
        proof {
            assert(views(chunks@) =~= seq![]);
            assert(Seq::<ChunkFrameView>::empty() + spec_frames(data@, at as int) =~= spec_frames(
                data@,
                at as int,
            ));
        }
        loop
            invariant
                spec_frames(data@, at as int) == views(chunks@) + spec_frames(data@, cur as int),
            ensures
                spec_frames(data@, at as int) == views(chunks@),
            decreases data.len() - cur,
        {
            let ghost before = views(chunks@);
            match XfbinChunk::read(data, cur) {
                None => {
                    assert(before + Seq::<ChunkFrameView>::empty() =~= before);
                    break ;
                },
                Some((frame, next)) => {
                    proof {
                        let rest = spec_frames(data@, next as int);
                        assert(before + (seq![frame@] + rest) =~= before.push(frame@) + rest);
                    }
                    chunks.push(frame);
                    assert(views(chunks@) =~= before.push(frame@));
                    cur = next;
                },
            }
        }
        chunks
    }

    /// Reads a container from the bytes of a file.
    pub fn read(data: &Vec<u8>) -> (r: Result<XfbinFile, NuccError>)
        ensures
            r matches Ok(file) ==> spec_file(data@) == Ok::<FileView, NuccError>(file@),
            r matches Err(e) ==> spec_file(data@) == Err::<FileView, NuccError>(e),
    {
        let header = match XfbinHeader::read(data) {
            Ok(v) => v,
            Err(e) => { return Err(e); },
        };
        let (index, frames_at) = match XfbinIndex::read(data, 16) {
            Ok(v) => v,
            Err(e) => { return Err(e); },
        };
        let chunks = XfbinFile::read_chunks(data, frames_at);
        Ok(XfbinFile { header, index, chunks })
    }

    /// The bytes of the container.
    pub fn write(&self) -> (r: Result<Vec<u8>, NuccError>)
        ensures
            r matches Ok(bytes) ==> spec_file_bytes(self@) == Ok::<Seq<u8>, NuccError>(bytes@),
            r matches Err(e) ==> spec_file_bytes(self@) == Err::<Seq<u8>, NuccError>(e),
    {
        let mut out: Vec<u8> = Vec::new();
        self.header.write(&mut out);
        match self.index.write(&mut out) {
            Ok(()) => {},
            Err(e) => { return Err(e); },
        }
        let ghost start = out@;
        let mut i: usize = 0;
        assert(views(self.chunks@).subrange(0, 0) =~= seq![]);
        while i < self.chunks.len()
            invariant
                i <= self.chunks.len(),
                spec_frames_bytes(views(self.chunks@).subrange(0, i as int)) is Ok,
                out@ == start + spec_frames_bytes(views(self.chunks@).subrange(0, i as int))->Ok_0,
            decreases self.chunks.len() - i,
        {
            let ghost next = views(self.chunks@).subrange(0, i + 1);
            proof {
                assert(next.drop_last() =~= views(self.chunks@).subrange(0, i as int));
                assert(next.last() == self.chunks@[i as int]@);
            }
            match self.chunks[i].write(&mut out) {
                Ok(()) => {},
                Err(e) => {
                    proof {
                        lemma_frames_bytes_err(views(self.chunks@), i as int);
                    }
                    return Err(e);
                },
            }
            assert(out@ =~= start + spec_frames_bytes(next)->Ok_0);
            i += 1;
        }
        assert(views(self.chunks@).subrange(0, self.chunks.len() as int) =~= views(self.chunks@));
        assert(out@ =~= spec_file_bytes(self@)->Ok_0);
        Ok(out)
    }
}

/// A header that is not marked as encrypted is read back from its bytes,
/// whatever follows them.
pub proof fn lemma_header_round_trip(header: XfbinHeader, tail: Seq<u8>)
    requires
        !header.encrypted,
    ensures
        spec_header_bytes(header).len() == header_len(),
        spec_header(spec_header_bytes(header) + tail) == Ok::<XfbinHeader, NuccError>(header),
{
    let bytes = spec_header_bytes(header);
    let whole = bytes + tail;
    let version = u32_be(header.version as u32);
    crate::utils::lemma_u32_round_trip(header.version as u32);
    assert(bytes.len() == 16);
    assert(whole.subrange(0, 4) =~= spec_magic());
    assert(whole[4] == version[0] && whole[5] == version[1] && whole[6] == version[2]
        && whole[7] == version[3]);
    assert(be_u32(whole, 4) == be_u32(version, 0));
    assert(whole[9] == 0);
}

/// What is read at a place of a byte run is read at the same place behind
/// whatever is put in front of the run.
pub proof fn lemma_be_u32_shift(front: Seq<u8>, data: Seq<u8>, at: int)
    requires
        fits(data, at, 4),
    ensures
        be_u32(front + data, front.len() + at) == be_u32(data, at),
        be_u16(front + data, front.len() + at) == be_u16(data, at),
{
    let whole = front + data;
    assert(whole[front.len() + at] == data[at]);
    assert(whole[front.len() + at + 1] == data[at + 1]);
    assert(whole[front.len() + at + 2] == data[at + 2]);
    assert(whole[front.len() + at + 3] == data[at + 3]);
}

/// The frames that are read behind a run of bytes are those that are read
/// from what follows the run.
pub proof fn lemma_frames_shift(front: Seq<u8>, data: Seq<u8>, at: int)
    requires
        0 <= at <= data.len(),
    ensures
        spec_frames(front + data, front.len() + at) == spec_frames(data, at),
    decreases data.len() - at,
{
    let whole = front + data;
    let there = front.len() + at;
    if fits(data, at, 12) {
        lemma_be_u32_shift(front, data, at);
        lemma_be_u32_shift(front, data, at + 4);
        assert(whole[there + 8] == data[at + 8] && whole[there + 9] == data[at + 9]);
        let size = be_u32(data, at);
        if fits(data, at + 12, size) {
            lemma_frames_shift(front, data, at + 12 + size);
            assert(whole.subrange(there + 12, there + 12 + size) =~= data.subrange(
                at + 12,
                at + 12 + size,
            ));
            assert(spec_frame_fits(whole, there));
            assert(spec_frame_at(whole, there) == spec_frame_at(data, at));
        } else {
            assert(!spec_frame_fits(whole, there));
        }
    } else {
        assert(!spec_frame_fits(whole, there));
    }
}

/// A frame is read back from its bytes, whatever follows them.
pub proof fn lemma_frame_round_trip(frame: ChunkFrameView, tail: Seq<u8>)
    requires
        spec_frame_bytes(frame) is Ok,
    ensures
        spec_frame_bytes(frame)->Ok_0.len() == frame_head_len() + frame.chunk_buffer.len(),
        spec_frame_fits(spec_frame_bytes(frame)->Ok_0 + tail, 0),
        spec_frame_at(spec_frame_bytes(frame)->Ok_0 + tail, 0) == frame,
{
    let bytes = spec_frame_bytes(frame)->Ok_0;
    let whole = bytes + tail;
    let size = u32_be(frame.chunk_buffer.len() as u32);
    let index = u32_be(frame.chunk_map_index);
    let version = u16_be(frame.version);
    crate::utils::lemma_u32_round_trip(frame.chunk_buffer.len() as u32);
    crate::utils::lemma_u32_round_trip(frame.chunk_map_index);
    crate::utils::lemma_u16_round_trip(frame.version);
    assert(bytes.len() == 12 + frame.chunk_buffer.len());
    assert(whole[0] == size[0] && whole[1] == size[1] && whole[2] == size[2] && whole[3]
        == size[3]);
    assert(whole[4] == index[0] && whole[5] == index[1] && whole[6] == index[2] && whole[7]
        == index[3]);
    assert(whole[8] == version[0] && whole[9] == version[1]);
    assert(be_u32(whole, 0) == be_u32(size, 0));
    assert(be_u32(whole, 4) == be_u32(index, 0));
    assert(be_u16(whole, 8) == be_u16(version, 0));
    assert(whole.subrange(12, 12 + frame.chunk_buffer.len() as int) =~= frame.chunk_buffer);
}

/// The bytes of a run of frames with one more frame in front are the bytes
/// of that frame and then those of the run.
pub proof fn lemma_frames_bytes_front(first: ChunkFrameView, rest: Seq<ChunkFrameView>)
    ensures
        spec_frames_bytes(seq![first] + rest) == (match spec_frame_bytes(first) {
            Err(e) => Err::<Seq<u8>, NuccError>(e),
            Ok(head) => match spec_frames_bytes(rest) {
                Err(e) => Err(e),
                Ok(tail) => Ok(head + tail),
            },
        }),
    decreases rest.len(),
{
    let all = seq![first] + rest;
    let empty = Seq::<ChunkFrameView>::empty();
    assert(spec_frames_bytes(empty) == Ok::<Seq<u8>, NuccError>(Seq::<u8>::empty()));
    if rest.len() == 0 {
        assert(rest =~= empty);
        assert(all.drop_last() =~= empty);
        assert(all.last() == first);
        if spec_frame_bytes(first) is Ok {
            let head = spec_frame_bytes(first)->Ok_0;
            assert(Seq::<u8>::empty() + head =~= head + Seq::<u8>::empty());
            assert(spec_frames_bytes(all) == Ok::<Seq<u8>, NuccError>(Seq::<u8>::empty() + head));
        }
    } else {
        let shorter = rest.drop_last();
        lemma_frames_bytes_front(first, shorter);
        assert(all.drop_last() =~= seq![first] + shorter);
        assert(all.last() == rest.last());
        if spec_frame_bytes(first) is Ok && spec_frames_bytes(shorter) is Ok && spec_frame_bytes(
            rest.last(),
        ) is Ok {
            let head = spec_frame_bytes(first)->Ok_0;
            let middle = spec_frames_bytes(shorter)->Ok_0;
            let back = spec_frame_bytes(rest.last())->Ok_0;
            assert(spec_frames_bytes(rest) == Ok::<Seq<u8>, NuccError>(middle + back));
            assert(spec_frames_bytes(all.drop_last()) == Ok::<Seq<u8>, NuccError>(head + middle));
            assert((head + middle) + back =~= head + (middle + back));
        }
    }
}

/// The frames of a run are read back from its bytes; behind them come the
/// frames that what follows the bytes holds.
pub proof fn lemma_frames_round_trip(frames: Seq<ChunkFrameView>, tail: Seq<u8>)
    requires
        spec_frames_bytes(frames) is Ok,
    ensures
        spec_frames(spec_frames_bytes(frames)->Ok_0 + tail, 0) == frames + spec_frames(tail, 0),
    decreases frames.len(),
{
    let bytes = spec_frames_bytes(frames)->Ok_0;
    if frames.len() == 0 {
        assert(bytes + tail =~= tail);
        assert(frames + spec_frames(tail, 0) =~= spec_frames(tail, 0));
    } else {
        let first = frames[0];
        let rest = frames.subrange(1, frames.len() as int);
        assert(frames =~= seq![first] + rest);
        lemma_frames_bytes_front(first, rest);
        let head = spec_frame_bytes(first)->Ok_0;
        let back = spec_frames_bytes(rest)->Ok_0;
        let whole = bytes + tail;
        assert(whole =~= head + (back + tail));
        lemma_frame_round_trip(first, back + tail);
        lemma_frames_round_trip(rest, tail);
        lemma_frames_shift(head, back + tail, 0);
        assert(spec_frames(whole, 0) =~= seq![first] + spec_frames(whole, head.len() as int));
        assert(seq![first] + (rest + spec_frames(tail, 0)) =~= frames + spec_frames(tail, 0));
    }
}

/// The bytes of a pair.
pub open spec fn spec_pair_bytes(pair: (u32, u32)) -> Seq<u8> {
    u32_be(pair.0) + u32_be(pair.1)
}

/// A run of pairs takes eight bytes for each.
pub proof fn lemma_pairs_bytes_len(pairs: Seq<(u32, u32)>)
    ensures
        spec_pairs_bytes(pairs).len() == 8 * pairs.len(),
    decreases pairs.len(),
{
    if pairs.len() > 0 {
        lemma_pairs_bytes_len(pairs.drop_last());
    }
}

/// The eight bytes of the `i`-th pair of a run lie at eight times `i` in
/// the bytes of the run.
pub proof fn lemma_pairs_bytes_at(pairs: Seq<(u32, u32)>, i: int)
    requires
        0 <= i < pairs.len(),
    ensures
        fits(spec_pairs_bytes(pairs), 8 * i, 8),
        spec_pairs_bytes(pairs).subrange(8 * i, 8 * i + 8) == spec_pair_bytes(pairs[i]),
    decreases pairs.len(),
{
    let before = pairs.drop_last();
    let last = spec_pair_bytes(pairs.last());
    lemma_pairs_bytes_len(before);
    lemma_pairs_bytes_len(pairs);
    let bytes = spec_pairs_bytes(pairs);
    assert(bytes =~= spec_pairs_bytes(before) + last);
    if i == pairs.len() - 1 {
        assert(bytes.subrange(8 * i, 8 * i + 8) =~= last);
    } else {
        lemma_pairs_bytes_at(before, i);
        assert(before[i] == pairs[i]);
        assert(bytes.subrange(8 * i, 8 * i + 8) =~= spec_pairs_bytes(before).subrange(
            8 * i,
            8 * i + 8,
        ));
    }
}

/// Where the eight bytes at a place are those of a pair, the two numbers
/// of the pair are read there.
pub proof fn lemma_pair_at(whole: Seq<u8>, at: int, pair: (u32, u32))
    requires
        fits(whole, at, 8),
        whole.subrange(at, at + 8) == spec_pair_bytes(pair),
    ensures
        be_u32(whole, at) == pair.0,
        be_u32(whole, at + 4) == pair.1,
{
    let part = whole.subrange(at, at + 8);
    assert(whole.subrange(at, at + 4) =~= part.subrange(0, 4));
    assert(whole.subrange(at + 4, at + 8) =~= part.subrange(4, 8));
    assert(part.subrange(0, 4) =~= u32_be(pair.0));
    assert(part.subrange(4, 8) =~= u32_be(pair.1));
    lemma_u32_at(whole, at, pair.0);
    lemma_u32_at(whole, at + 4, pair.1);
}

/// A run of pairs takes eight bytes for each, and is read back from its
/// bytes wherever they lie.
pub proof fn lemma_pairs_round_trip(pairs: Seq<(u32, u32)>, front: Seq<u8>, tail: Seq<u8>)
    ensures
        spec_pairs_bytes(pairs).len() == 8 * pairs.len(),
        spec_pairs(
            front + spec_pairs_bytes(pairs) + tail,
            front.len() as int,
            pairs.len() as int,
        ) == pairs,
{
    let bytes = spec_pairs_bytes(pairs);
    let whole = front + bytes + tail;
    let n = pairs.len() as int;
    lemma_pairs_bytes_len(pairs);
    let got = spec_pairs(whole, front.len() as int, n);
    assert forall|i: int| 0 <= i < n implies got[i] == pairs[i] by {
        lemma_pairs_bytes_at(pairs, i);
        let at = front.len() + 8 * i;
        assert(whole.subrange(at, at + 8) =~= bytes.subrange(8 * i, 8 * i + 8));
        lemma_pair_at(whole, at, pairs[i]);
    }
    assert(got =~= pairs);
}

/// Where the twelve bytes at a place are those of a chunk map entry, the
/// three numbers of that entry are read there.
pub proof fn lemma_map_at(whole: Seq<u8>, at: int, map: XfbinChunkMap)
    requires
        fits(whole, at, 12),
        whole.subrange(at, at + 12) == spec_map_bytes(map),
    ensures
        be_u32(whole, at) == map.chunk_type_index,
        be_u32(whole, at + 4) == map.file_path_index,
        be_u32(whole, at + 8) == map.chunk_name_index,
{
    let part = whole.subrange(at, at + 12);
    assert(whole.subrange(at, at + 4) =~= part.subrange(0, 4));
    assert(whole.subrange(at + 4, at + 8) =~= part.subrange(4, 8));
    assert(whole.subrange(at + 8, at + 12) =~= part.subrange(8, 12));
    assert(part.subrange(0, 4) =~= u32_be(map.chunk_type_index));
    assert(part.subrange(4, 8) =~= u32_be(map.file_path_index));
    assert(part.subrange(8, 12) =~= u32_be(map.chunk_name_index));
    lemma_u32_at(whole, at, map.chunk_type_index);
    lemma_u32_at(whole, at + 4, map.file_path_index);
    lemma_u32_at(whole, at + 8, map.chunk_name_index);
}

/// A run of chunk map entries takes twelve bytes for each.
pub proof fn lemma_maps_bytes_len(maps: Seq<XfbinChunkMap>)
    ensures
        spec_maps_bytes(maps).len() == 12 * maps.len(),
    decreases maps.len(),
{
    if maps.len() > 0 {
        lemma_maps_bytes_len(maps.drop_last());
    }
}

/// The twelve bytes of the `i`-th entry of a run of chunk map entries lie
/// at twelve times `i` in the bytes of the run.
pub proof fn lemma_maps_bytes_at(maps: Seq<XfbinChunkMap>, i: int)
    requires
        0 <= i < maps.len(),
    ensures
        fits(spec_maps_bytes(maps), 12 * i, 12),
        spec_maps_bytes(maps).subrange(12 * i, 12 * i + 12) == spec_map_bytes(maps[i]),
    decreases maps.len(),
{
    let before = maps.drop_last();
    let last = spec_map_bytes(maps.last());
    lemma_maps_bytes_len(before);
    lemma_maps_bytes_len(maps);
    let bytes = spec_maps_bytes(maps);
    if i == maps.len() - 1 {
        assert(bytes.subrange(12 * i, 12 * i + 12) =~= last);
    } else {
        lemma_maps_bytes_at(before, i);
        assert(before[i] == maps[i]);
        assert(bytes.subrange(12 * i, 12 * i + 12) =~= spec_maps_bytes(before).subrange(
            12 * i,
            12 * i + 12,
        ));
    }
}

/// A run of chunk map entries takes twelve bytes for each, and is read
/// back from its bytes wherever they lie.
pub proof fn lemma_maps_round_trip(maps: Seq<XfbinChunkMap>, front: Seq<u8>, tail: Seq<u8>)
    ensures
        spec_maps_bytes(maps).len() == 12 * maps.len(),
        spec_maps(front + spec_maps_bytes(maps) + tail, front.len() as int, maps.len() as int)
            == maps,
{
    let bytes = spec_maps_bytes(maps);
    let whole = front + bytes + tail;
    let n = maps.len() as int;
    lemma_maps_bytes_len(maps);
    let got = spec_maps(whole, front.len() as int, n);
    assert forall|i: int| 0 <= i < n implies got[i] == maps[i] by {
        lemma_maps_bytes_at(maps, i);
        let at = front.len() + 12 * i;
        assert(whole.subrange(at, at + 12) =~= bytes.subrange(12 * i, 12 * i + 12));
        lemma_map_at(whole, at, maps[i]);
    }
    assert(got =~= maps);
}

/// Where the four bytes at a place are those of a number, and so are the
/// four behind them, both numbers are read there.
proof fn lemma_two_u32_at(whole: Seq<u8>, at: int, part: Seq<u8>, from: int, a: u32, b: u32)
    requires
        0 <= from,
        from + 8 <= part.len(),
        fits(whole, at, part.len() as int),
        whole.subrange(at, at + part.len()) == part,
        part.subrange(from, from + 4) == u32_be(a),
        part.subrange(from + 4, from + 8) == u32_be(b),
    ensures
        be_u32(whole, at + from) == a,
        be_u32(whole, at + from + 4) == b,
{
    assert(whole.subrange(at + from, at + from + 4) =~= part.subrange(from, from + 4));
    assert(whole.subrange(at + from + 4, at + from + 8) =~= part.subrange(from + 4, from + 8));
    lemma_u32_at(whole, at + from, a);
    lemma_u32_at(whole, at + from + 4, b);
}

/// The first four fields of a fixed part are read from their bytes.
proof fn lemma_head_opening_at(whole: Seq<u8>, at: int, head: IndexHead)
    requires
        fits(whole, at, 12),
        whole.subrange(at, at + 12) == spec_head_opening(head),
    ensures
        be_u32(whole, at) == head.table_size,
        be_u32(whole, at + 4) == head.min_page_size,
        be_u16(whole, at + 8) == head.version,
        be_u16(whole, at + 10) == head.unknown,
{
    let part = spec_head_opening(head);
    assert(part.len() == 12);
    assert(part.subrange(0, 4) =~= u32_be(head.table_size));
    assert(part.subrange(4, 8) =~= u32_be(head.min_page_size));
    assert(part.subrange(8, 10) =~= u16_be(head.version));
    assert(part.subrange(10, 12) =~= u16_be(head.unknown));
    lemma_two_u32_at(whole, at, part, 0, head.table_size, head.min_page_size);
    assert(whole.subrange(at + 8, at + 10) =~= part.subrange(8, 10));
    assert(whole.subrange(at + 10, at + 12) =~= part.subrange(10, 12));
    lemma_u16_at(whole, at + 8, head.version);
    lemma_u16_at(whole, at + 10, head.unknown);
}

/// The counts and lengths of the pools are read from their bytes.
proof fn lemma_head_pools_at(whole: Seq<u8>, at: int, head: IndexHead)
    requires
        fits(whole, at, 24),
        whole.subrange(at, at + 24) == spec_head_pools(head),
    ensures
        be_u32(whole, at) == head.types.0,
        be_u32(whole, at + 4) == head.types.1,
        be_u32(whole, at + 8) == head.paths.0,
        be_u32(whole, at + 12) == head.paths.1,
        be_u32(whole, at + 16) == head.names.0,
        be_u32(whole, at + 20) == head.names.1,
{
    let part = spec_head_pools(head);
    assert(part.len() == 24);
    assert(part.subrange(0, 4) =~= u32_be(head.types.0));
    assert(part.subrange(4, 8) =~= u32_be(head.types.1));
    assert(part.subrange(8, 12) =~= u32_be(head.paths.0));
    assert(part.subrange(12, 16) =~= u32_be(head.paths.1));
    assert(part.subrange(16, 20) =~= u32_be(head.names.0));
    assert(part.subrange(20, 24) =~= u32_be(head.names.1));
    lemma_two_u32_at(whole, at, part, 0, head.types.0, head.types.1);
    lemma_two_u32_at(whole, at, part, 8, head.paths.0, head.paths.1);
    lemma_two_u32_at(whole, at, part, 16, head.names.0, head.names.1);
}

/// The counts of the tables are read from their bytes.
proof fn lemma_head_tables_at(whole: Seq<u8>, at: int, head: IndexHead)
    requires
        fits(whole, at, 16),
        whole.subrange(at, at + 16) == spec_head_tables(head),
    ensures
        be_u32(whole, at) == head.maps.0,
        be_u32(whole, at + 4) == head.maps.1,
        be_u32(whole, at + 8) == head.map_index_count,
        be_u32(whole, at + 12) == head.reference_count,
{
    let part = spec_head_tables(head);
    assert(part.len() == 16);
    assert(part.subrange(0, 4) =~= u32_be(head.maps.0));
    assert(part.subrange(4, 8) =~= u32_be(head.maps.1));
    assert(part.subrange(8, 12) =~= u32_be(head.map_index_count));
    assert(part.subrange(12, 16) =~= u32_be(head.reference_count));
    lemma_two_u32_at(whole, at, part, 0, head.maps.0, head.maps.1);
    lemma_two_u32_at(whole, at, part, 8, head.map_index_count, head.reference_count);
}

/// The fixed part that opens an index takes 52 bytes and is read back from
/// them wherever they lie.
pub proof fn lemma_head_round_trip(head: IndexHead, front: Seq<u8>, tail: Seq<u8>)
    ensures
        spec_head_bytes(head).len() == index_head_len(),
        spec_head_at(front + spec_head_bytes(head) + tail, front.len() as int) == head,
{
    reveal(spec_head_bytes);
    let a = spec_head_opening(head);
    let b = spec_head_pools(head);
    let c = spec_head_tables(head);
    let bytes = spec_head_bytes(head);
    let whole = front + bytes + tail;
    let at = front.len() as int;
    assert(a.len() == 12 && b.len() == 24 && c.len() == 16);
    assert(bytes == a + b + c);
    assert(whole.subrange(at, at + 12) =~= a);
    assert(whole.subrange(at + 12, at + 36) =~= b);
    assert(whole.subrange(at + 36, at + 52) =~= c);
    lemma_head_opening_at(whole, at, head);
    lemma_head_pools_at(whole, at + 12, head);
    lemma_head_tables_at(whole, at + 36, head);
}

/// The bytes of an index between `front` and `tail`.
pub open spec fn spec_index_between(index: IndexView, front: Seq<u8>, tail: Seq<u8>) -> Seq<u8> {
    front + spec_index_bytes(index)->Ok_0 + tail
}

/// Five runs of bytes between two others can be grouped at will.
proof fn lemma_regroup(
    front: Seq<u8>,
    a: Seq<u8>,
    p: Seq<u8>,
    d: Seq<u8>,
    e: Seq<u8>,
    f: Seq<u8>,
    tail: Seq<u8>,
)
    ensures
        front + (a + p + d + e + f) + tail == front + a + (p + d + e + f + tail),
        front + (a + p + d + e + f) + tail == front + a + p + (d + e + f + tail),
        front + (a + p + d + e + f) + tail == (front + a + p) + d + (e + f + tail),
        front + (a + p + d + e + f) + tail == (front + a + p + d) + e + (f + tail),
        front + (a + p + d + e + f) + tail == (front + a + p + d + e) + f + tail,
{
    let whole = front + (a + p + d + e + f) + tail;
    assert(whole =~= front + a + (p + d + e + f + tail));
    assert(whole =~= front + a + p + (d + e + f + tail));
    assert(whole =~= (front + a + p) + d + (e + f + tail));
    assert(whole =~= (front + a + p + d) + e + (f + tail));
    assert(whole =~= (front + a + p + d + e) + f + tail);
}

/// The fixed part of an index is read back from the bytes of the index.
proof fn lemma_index_head_part(index: IndexView, front: Seq<u8>, tail: Seq<u8>)
    requires
        spec_index_fits(index),
    ensures
        fits(spec_index_between(index, front, tail), front.len() as int, index_head_len()),
        spec_head_at(spec_index_between(index, front, tail), front.len() as int) == spec_head_of(
            index,
        ),
{
    let head = spec_head_of(index);
    let a = spec_head_bytes(head);
    let p = spec_pools_bytes(index);
    let d = spec_maps_bytes(index.chunk_maps);
    let e = spec_pairs_bytes(index.chunk_references);
    let f = spec_u32s_bytes(index.chunk_map_indices);
    lemma_head_round_trip(head, front, p + d + e + f + tail);
    lemma_regroup(front, a, p, d, e, f, tail);
}

/// The three pools one behind the other lie in their bytes where their
/// lengths say.
proof fn lemma_pools_bytes(index: IndexView)
    ensures
        ({
            let p = spec_pools_bytes(index);
            let types = index.chunk_types.data;
            let paths = index.file_paths.data;
            let names = index.chunk_names.data;
            let pools = spec_pools_len(index);
            &&& pad4(pools) >= 0
            &&& p.len() == pools + pad4(pools)
            &&& p.subrange(0, types.len() as int) == types
            &&& p.subrange(types.len() as int, (types.len() + paths.len()) as int) == paths
            &&& p.subrange((types.len() + paths.len()) as int, pools) == names
        }),
{
    let p = spec_pools_bytes(index);
    let types = index.chunk_types.data;
    let paths = index.file_paths.data;
    let names = index.chunk_names.data;
    let pools = spec_pools_len(index);
    assert(0 <= (4 - pools % 4) % 4);
    assert(p.subrange(0, types.len() as int) =~= types);
    assert(p.subrange(types.len() as int, (types.len() + paths.len()) as int) =~= paths);
    assert(p.subrange((types.len() + paths.len()) as int, pools) =~= names);
}

/// The pools of an index lie behind its fixed part, one behind the other.
proof fn lemma_index_pools_part(index: IndexView, front: Seq<u8>, tail: Seq<u8>)
    requires
        spec_index_fits(index),
    ensures
        ({
            let whole = spec_index_between(index, front, tail);
            let types_at = front.len() as int + index_head_len();
            let paths_at = types_at + index.chunk_types.data.len() as int;
            let names_at = paths_at + index.file_paths.data.len() as int;
            let pools = spec_pools_len(index);
            &&& pad4(pools) >= 0
            &&& fits(whole, types_at, pools + pad4(pools))
            &&& whole.subrange(types_at, paths_at) == index.chunk_types.data
            &&& whole.subrange(paths_at, names_at) == index.file_paths.data
            &&& whole.subrange(names_at, names_at + index.chunk_names.data.len() as int)
                == index.chunk_names.data
        }),
{
    let head = spec_head_of(index);
    let a = spec_head_bytes(head);
    let p = spec_pools_bytes(index);
    let d = spec_maps_bytes(index.chunk_maps);
    let e = spec_pairs_bytes(index.chunk_references);
    let f = spec_u32s_bytes(index.chunk_map_indices);
    let whole = spec_index_between(index, front, tail);
    lemma_head_round_trip(head, front, tail);
    lemma_regroup(front, a, p, d, e, f, tail);
    lemma_pools_bytes(index);
    let x = front + a;
    let rest = d + e + f + tail;
    assert(whole == x + p + rest);
    let types_at = front.len() as int + 52;
    let paths_at = types_at + index.chunk_types.data.len() as int;
    let names_at = paths_at + index.file_paths.data.len() as int;
    let l1 = index.chunk_types.data.len() as int;
    let l2 = index.file_paths.data.len() as int;
    let l3 = index.chunk_names.data.len() as int;
    assert(x.len() == types_at);
    assert(whole.subrange(types_at, paths_at) =~= p.subrange(0, l1));
    assert(whole.subrange(paths_at, names_at) =~= p.subrange(l1, l1 + l2));
    assert(whole.subrange(names_at, names_at + l3) =~= p.subrange(l1 + l2, l1 + l2 + l3));
}

/// Chunk map, references and map indices are read back from where they
/// lie one behind the other.
proof fn lemma_tables_round_trip(
    maps: Seq<XfbinChunkMap>,
    pairs: Seq<(u32, u32)>,
    indices: Seq<u32>,
    front: Seq<u8>,
    tail: Seq<u8>,
)
    ensures
        ({
            let d = spec_maps_bytes(maps);
            let e = spec_pairs_bytes(pairs);
            let f = spec_u32s_bytes(indices);
            let whole = front + d + e + f + tail;
            let maps_at = front.len() as int;
            let references_at = maps_at + 12 * maps.len() as int;
            let indices_at = references_at + 8 * pairs.len() as int;
            &&& d.len() == 12 * maps.len()
            &&& e.len() == 8 * pairs.len()
            &&& f.len() == 4 * indices.len()
            &&& whole.len() == front.len() + d.len() + e.len() + f.len() + tail.len()
            &&& spec_maps(whole, maps_at, maps.len() as int) == maps
            &&& spec_pairs(whole, references_at, pairs.len() as int) == pairs
            &&& spec_u32s(whole, indices_at, indices.len() as int) == indices
        }),
{
    let d = spec_maps_bytes(maps);
    let e = spec_pairs_bytes(pairs);
    let f = spec_u32s_bytes(indices);
    let whole = front + d + e + f + tail;
    lemma_maps_round_trip(maps, front, e + f + tail);
    assert(whole =~= front + d + (e + f + tail));
    lemma_pairs_round_trip(pairs, front + d, f + tail);
    assert(whole =~= (front + d) + e + (f + tail));
    lemma_u32s_round_trip(indices, front + d + e, tail);
}

/// The tables of an index are read back from the bytes of the index.
proof fn lemma_index_tables_part(index: IndexView, front: Seq<u8>, tail: Seq<u8>)
    requires
        spec_index_fits(index),
    ensures
        ({
            let whole = spec_index_between(index, front, tail);
            let pools = spec_pools_len(index);
            let maps_at = front.len() as int + index_head_len() + pools + pad4(pools);
            let references_at = maps_at + 12 * index.chunk_maps.len() as int;
            let indices_at = references_at + 8 * index.chunk_references.len() as int;
            &&& fits(whole, maps_at, 12 * index.chunk_maps.len() as int)
            &&& fits(whole, references_at, 8 * index.chunk_references.len() as int)
            &&& fits(whole, indices_at, 4 * index.chunk_map_indices.len() as int)
            &&& indices_at + 4 * index.chunk_map_indices.len() == front.len() + spec_index_bytes(
                index,
            )->Ok_0.len()
            &&& spec_maps(whole, maps_at, index.chunk_maps.len() as int) == index.chunk_maps
            &&& spec_pairs(whole, references_at, index.chunk_references.len() as int)
                == index.chunk_references
            &&& spec_u32s(whole, indices_at, index.chunk_map_indices.len() as int)
                == index.chunk_map_indices
        }),
{
    let head = spec_head_of(index);
    let a = spec_head_bytes(head);
    let p = spec_pools_bytes(index);
    let d = spec_maps_bytes(index.chunk_maps);
    let e = spec_pairs_bytes(index.chunk_references);
    let f = spec_u32s_bytes(index.chunk_map_indices);
    let whole = spec_index_between(index, front, tail);
    let x = front + a + p;
    lemma_head_round_trip(head, front, tail);
    let pools = spec_pools_len(index);
    assert(0 <= (4 - pools % 4) % 4);
    assert(p.len() == pools + pad4(pools));
    assert(x.len() == front.len() + 52 + pools + pad4(pools));
    lemma_tables_round_trip(index.chunk_maps, index.chunk_references, index.chunk_map_indices, x, tail);
    assert(spec_index_bytes(index)->Ok_0 == a + p + d + e + f);
    assert(whole =~= x + d + e + f + tail);
}

/// Whether pools and tables lie in `data`, from `at` on, as the fixed part
/// `head` says, and are those of `index`.
pub open spec fn spec_index_lies(data: Seq<u8>, at: int, head: IndexHead, index: IndexView) -> bool {
    let types_at = at + index_head_len();
    let paths_at = types_at + head.types.1;
    let names_at = paths_at + head.paths.1;
    let pools = head.types.1 + head.paths.1 + head.names.1;
    let maps_at = names_at + head.names.1 + pad4(pools);
    let references_at = maps_at + 12 * head.maps.0;
    let indices_at = references_at + 8 * head.reference_count;
    &&& fits(data, types_at, pools + pad4(pools))
    &&& fits(data, maps_at, 12 * head.maps.0)
    &&& fits(data, references_at, 8 * head.reference_count)
    &&& fits(data, indices_at, 4 * head.map_index_count)
    &&& index.min_page_size == head.min_page_size
    &&& index.version == head.version
    &&& index.unknown == head.unknown
    &&& index.chunk_types == (DataBufferView {
        data: data.subrange(types_at, paths_at),
        count: head.types.0,
    })
    &&& index.file_paths == (DataBufferView {
        data: data.subrange(paths_at, names_at),
        count: head.paths.0,
    })
    &&& index.chunk_names == (DataBufferView {
        data: data.subrange(names_at, names_at + head.names.1),
        count: head.names.0,
    })
    &&& index.chunk_maps == spec_maps(data, maps_at, head.maps.0 as int)
    &&& index.chunk_references == spec_pairs(data, references_at, head.reference_count as int)
    &&& index.chunk_map_indices == spec_u32s(data, indices_at, head.map_index_count as int)
}

/// Where pools and tables lie as a fixed part says, the index that
/// follows the fixed part is made of them.
proof fn lemma_index_body_is(data: Seq<u8>, at: int, head: IndexHead, index: IndexView)
    requires
        spec_index_lies(data, at, head, index),
    ensures
        spec_index_body(data, at, head) == Ok::<(IndexView, int), NuccError>(
            (
                index,
                at + index_head_len() + head.types.1 + head.paths.1 + head.names.1 + pad4(
                    head.types.1 + head.paths.1 + head.names.1,
                ) + 12 * head.maps.0 + 8 * head.reference_count + 4 * head.map_index_count,
            ),
        ),
{
    reveal(spec_index_body);
}

/// What the fixed part of a written index says of the lengths of pools and
/// tables.
proof fn lemma_head_of(index: IndexView)
    requires
        spec_index_fits(index),
    ensures
        ({
            let head = spec_head_of(index);
            &&& head.min_page_size == index.min_page_size
            &&& head.version == index.version
            &&& head.unknown == index.unknown
            &&& head.types == (index.chunk_types.count, index.chunk_types.data.len() as u32)
            &&& head.paths == (index.file_paths.count, index.file_paths.data.len() as u32)
            &&& head.names == (index.chunk_names.count, index.chunk_names.data.len() as u32)
            &&& head.types.1 == index.chunk_types.data.len()
            &&& head.paths.1 == index.file_paths.data.len()
            &&& head.names.1 == index.chunk_names.data.len()
            &&& head.maps.0 == index.chunk_maps.len()
            &&& head.map_index_count == index.chunk_map_indices.len()
            &&& head.reference_count == index.chunk_references.len()
            &&& pad4(spec_pools_len(index)) >= 0
        }),
{
    let pools = spec_pools_len(index);
    assert(0 <= (4 - pools % 4) % 4);
}

/// The pools and tables of an index lie in the bytes of the index as its
/// fixed part says.
proof fn lemma_index_lies(index: IndexView, front: Seq<u8>, tail: Seq<u8>)
    requires
        spec_index_fits(index),
    ensures
        spec_index_lies(
            spec_index_between(index, front, tail),
            front.len() as int,
            spec_head_of(index),
            index,
        ),
        front.len() + index_head_len() + spec_head_of(index).types.1 + spec_head_of(
            index,
        ).paths.1 + spec_head_of(index).names.1 + pad4(
            spec_head_of(index).types.1 + spec_head_of(index).paths.1 + spec_head_of(
                index,
            ).names.1,
        ) + 12 * spec_head_of(index).maps.0 + 8 * spec_head_of(index).reference_count + 4
            * spec_head_of(index).map_index_count == front.len() + spec_index_bytes(
            index,
        )->Ok_0.len(),
{
    let head = spec_head_of(index);
    let whole = spec_index_between(index, front, tail);
    let at = front.len() as int;
    lemma_head_of(index);
    lemma_index_pools_part(index, front, tail);
    lemma_index_tables_part(index, front, tail);
    let l1 = index.chunk_types.data.len() as int;
    let l2 = index.file_paths.data.len() as int;
    let l3 = index.chunk_names.data.len() as int;
    let pools = spec_pools_len(index);
    assert(head.types.1 == l1 && head.paths.1 == l2 && head.names.1 == l3);
    assert(pools == l1 + l2 + l3);
    assert(head.types.1 + head.paths.1 + head.names.1 == pools);
    let types_at = at + index_head_len();
    let paths_at = types_at + head.types.1;
    let names_at = paths_at + head.paths.1;
    let maps_at = names_at + head.names.1 + pad4(pools);
    assert(maps_at == at + index_head_len() + pools + pad4(pools));
    let references_at = maps_at + 12 * head.maps.0;
    assert(references_at == maps_at + 12 * index.chunk_maps.len() as int);
    let indices_at = references_at + 8 * head.reference_count;
    assert(indices_at == references_at + 8 * index.chunk_references.len() as int);
    assert(fits(whole, types_at, pools + pad4(pools)));
    assert(fits(whole, maps_at, 12 * head.maps.0));
    assert(fits(whole, references_at, 8 * head.reference_count));
    assert(fits(whole, indices_at, 4 * head.map_index_count));
    assert(index.chunk_types == (DataBufferView {
        data: whole.subrange(types_at, paths_at),
        count: head.types.0,
    }));
    assert(index.file_paths == (DataBufferView {
        data: whole.subrange(paths_at, names_at),
        count: head.paths.0,
    }));
    assert(index.chunk_names == (DataBufferView {
        data: whole.subrange(names_at, names_at + head.names.1),
        count: head.names.0,
    }));
    assert(index.chunk_maps == spec_maps(whole, maps_at, head.maps.0 as int));
    assert(index.chunk_references == spec_pairs(whole, references_at, head.reference_count as int));
    assert(index.chunk_map_indices == spec_u32s(whole, indices_at, head.map_index_count as int));
}

/// An index is read back from its bytes wherever they lie, and the
/// reading ends where the bytes end.
pub proof fn lemma_index_round_trip(index: IndexView, front: Seq<u8>, tail: Seq<u8>)
    requires
        spec_index_fits(index),
    ensures
        spec_index_bytes(index) is Ok,
        spec_index(front + spec_index_bytes(index)->Ok_0 + tail, front.len() as int) == Ok::<
            (IndexView, int),
            NuccError,
        >((index, (front.len() + spec_index_bytes(index)->Ok_0.len()) as int)),
{
    let head = spec_head_of(index);
    let whole = spec_index_between(index, front, tail);
    let at = front.len() as int;
    lemma_index_head_part(index, front, tail);
    lemma_index_lies(index, front, tail);
    lemma_index_body_is(whole, at, head, index);
    assert(spec_index(whole, at) == spec_index_body(whole, at, head));
}

/// The frames of a run are read back from its bytes behind whatever is
/// put in front of them, when nothing follows them.
pub proof fn lemma_frames_behind(frames: Seq<ChunkFrameView>, front: Seq<u8>)
    requires
        spec_frames_bytes(frames) is Ok,
    ensures
        spec_frames(front + spec_frames_bytes(frames)->Ok_0, front.len() as int) == frames,
{
    let bytes = spec_frames_bytes(frames)->Ok_0;
    let none = Seq::<u8>::empty();
    lemma_frames_round_trip(frames, none);
    assert(!spec_frame_fits(none, 0));
    assert(frames + spec_frames(none, 0) =~= frames);
    assert(bytes + none =~= bytes);
    lemma_frames_shift(front, bytes, 0);
}

/// A container that is not marked as encrypted is read back from its
/// bytes.
pub proof fn lemma_file_round_trip(file: FileView)
    requires
        !file.header.encrypted,
        spec_file_bytes(file) is Ok,
    ensures
        spec_file(spec_file_bytes(file)->Ok_0) == Ok::<FileView, NuccError>(file),
{
    let h = spec_header_bytes(file.header);
    let i = spec_index_bytes(file.index)->Ok_0;
    let c = spec_frames_bytes(file.chunks)->Ok_0;
    let whole = spec_file_bytes(file)->Ok_0;
    let at = (h.len() + i.len()) as int;
    assert(whole == h + i + c);
    assert(h + (i + c) =~= whole);
    lemma_header_round_trip(file.header, i + c);
    assert(spec_header(whole) == Ok::<XfbinHeader, NuccError>(file.header));
    lemma_index_round_trip(file.index, h, c);
    assert(spec_index(whole, header_len()) == Ok::<(IndexView, int), NuccError>((file.index, at)));
    lemma_frames_behind(file.chunks, h + i);
    assert(spec_frames(whole, at) == file.chunks);
}

} // verus!
