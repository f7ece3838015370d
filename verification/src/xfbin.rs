//! The container as a document: pages of logical chunks.

use vstd::prelude::*;
use vstd::slice::slice_subrange;

use crate::error::NuccError;
use crate::nucc::spec_chunk_of;
use crate::nucc::spec_info_of;
use crate::nucc::spec_struct_infos;
use crate::nucc::spec_struct_version;
use crate::nucc_chunk::nucc_chunk_index::spec_index_info;
use crate::nucc_chunk::nucc_chunk_null::spec_null_info;
use crate::nucc_chunk::nucc_chunk_page::spec_page_bytes;
use crate::nucc_chunk::nucc_chunk_page::spec_page_info;
use crate::nucc_chunk::spec_write_struct;
use crate::nucc_chunk::NuccChunkIndex;
use crate::nucc_chunk::NuccChunkNull;
use crate::nucc_chunk::NuccChunkPage;
use crate::nucc::nucc_anm::pack::lemma_anm_chunk_tables;
use crate::nucc_chunk::nucc_chunk_page::lemma_page_round_trip;
use crate::nucc_chunk::nucc_chunk_page::spec_page;
use crate::table::lemma_intern_all_grows;
use crate::table::lemma_numbers_in_range;
use crate::table::spec_is_prefix;
use crate::table::spec_no_duplicates;
use crate::table::lemma_intern_all_len;
use crate::table::lemma_interned;
use crate::table::spec_intern_all;
use crate::table::spec_interned;
use crate::table::spec_position;
use crate::table::spec_number;
use crate::table::spec_numbers;
use crate::table::Table;
use crate::xfbin_file::spec_all_encodable;
use crate::xfbin_file::spec_pool_bytes;
use crate::xfbin_file::DataBufferView;
use crate::xfbin_file::IndexView;
use crate::xfbin_file::XfbinChunkMap;
use crate::xfbin_file::XfbinDataBuffer;
use crate::xfbin_file::XfbinHeader;
use crate::xfbin_file::XfbinIndex;
use crate::nucc::spec_struct_of;
use crate::nucc::spec_struct_references;
use crate::nucc::spec_with_info;
use crate::nucc::views;
use crate::nucc::AnyStruct;
use crate::nucc::AnyStructView;
use crate::nucc::NuccInfo;
use crate::nucc::NuccStructConverter;
use crate::nucc::NuccStructInfo;
use crate::nucc::NuccStructReference;
use crate::nucc::StructInfoView;
use crate::nucc::StructReferenceView;
use crate::nucc::XfbinChunkMapConverter;
use crate::nucc::XfbinChunkReferenceConverter;
use crate::nucc_chunk::spec_read_struct;
use crate::nucc_chunk::AnyChunk;
use crate::nucc_chunk::AnyChunkView;
use crate::nucc_chunk::NuccChunkType;
use crate::xfbin_file::spec_pool_strings;
use crate::xfbin_file::ChunkFrameView;
use crate::xfbin_file::FileView;
use crate::xfbin_file::XfbinChunk;
use crate::xfbin_file::XfbinFile;

verus! {

/// A container: its version and its pages.
#[derive(Debug, PartialEq, Eq)]
pub struct Xfbin {
    pub version: u16,
    pub pages: Vec<XfbinPage>,
}

/// A page: its logical chunks, and the identities and references of the
/// page as the file had them. When the page is written, these tables are
/// taken up again only if one of the chunks is of a type that the library
/// does not interpret.
#[derive(Debug, PartialEq, Eq)]
pub struct XfbinPage {
    pub structs: Vec<AnyStruct>,
    pub struct_infos: Vec<NuccStructInfo>,
    pub struct_references: Vec<NuccStructReference>,
}

/// An `XfbinPage` as plain values.
pub struct PageView {
    pub structs: Seq<AnyStructView>,
    pub struct_infos: Seq<StructInfoView>,
    pub struct_references: Seq<StructReferenceView>,
}

/// An `Xfbin` as plain values.
pub struct XfbinView {
    pub version: u16,
    pub pages: Seq<PageView>,
}

impl View for XfbinPage {
    type V = PageView;

    open spec fn view(&self) -> PageView {
        PageView {
            structs: views(self.structs@),
            struct_infos: views(self.struct_infos@),
            struct_references: views(self.struct_references@),
        }
    }
}

impl View for Xfbin {
    type V = XfbinView;

    open spec fn view(&self) -> XfbinView {
        XfbinView { version: self.version, pages: views(self.pages@) }
    }
}

/// Whether one of the chunks is of a type that the library does not
/// interpret.
pub open spec fn spec_has_unknown(structs: Seq<AnyStructView>) -> bool {
    exists|i: int| 0 <= i < structs.len() && (#[trigger] structs[i]) is Unknown
}

impl Default for XfbinPage {
    fn default() -> (r: Self)
        ensures
            r@ == (PageView { structs: seq![], struct_infos: seq![], struct_references: seq![] }),
    {
        let r = XfbinPage {
            structs: Vec::new(),
            struct_infos: Vec::new(),
            struct_references: Vec::new(),
        };
        assert(r@.structs =~= seq![]);
        assert(r@.struct_infos =~= seq![]);
        assert(r@.struct_references =~= seq![]);
        r
    }
}

/// Whether one of the chunks is of a type that the library does not
/// interpret.
fn any_unknown(structs: &Vec<AnyStruct>) -> (r: bool)
    ensures
        r == spec_has_unknown(views(structs@)),
{
    let mut i: usize = 0;
    while i < structs.len()
        invariant
            i <= structs.len(),
            forall|j: int| 0 <= j < i ==> !((#[trigger] views(structs@)[j]) is Unknown),
        decreases structs.len() - i,
    {
        match &structs[i] {
            AnyStruct::Unknown(_) => {
                assert(views(structs@)[i as int] is Unknown);
                return true;
            },
            _ => {},
        }
        i += 1;
    }
    false
}

impl XfbinPage {
    /// Whether one of the chunks of the page is of a type that the library
    /// does not interpret.
    pub fn has_unknown_chunk(&self) -> (r: bool)
        ensures
            r == spec_has_unknown(self@.structs),
    {
        any_unknown(&self.structs)
    }
}

/// The identities that the map indices stand for. An index that points
/// outside the chunk map is a `CountMismatch`.
pub open spec fn spec_mapped(indices: Seq<u32>, infos: Seq<StructInfoView>) -> Result<
    Seq<StructInfoView>,
    NuccError,
> {
    if exists|i: int| 0 <= i < indices.len() && (#[trigger] indices[i]) >= infos.len() {
        Err(NuccError::CountMismatch)
    } else {
        Ok(Seq::new(indices.len(), |i: int| infos[indices[i] as int]))
    }
}

/// The page that is closed when a page chunk comes: the chunks gathered
/// since the last page, and the identities and references that the page
/// chunk counts, from where the page began.
pub open spec fn spec_closed_page(
    structs: Seq<AnyStructView>,
    mapped: Seq<StructInfoView>,
    refs: Seq<StructReferenceView>,
    info_at: int,
    ref_at: int,
    info_count: int,
    ref_count: int,
) -> PageView {
    PageView {
        structs,
        struct_infos: mapped.subrange(info_at, info_at + info_count),
        struct_references: refs.subrange(ref_at, ref_at + ref_count),
    }
}

/// The pages that the frames from the `k`-th on add to `done`, when
/// `structs` are the chunks gathered since the last page and the page in
/// progress began at `info_at` among the identities and at `ref_at` among
/// the references.
///
/// Each frame finds its identity at its chunk map index, counted from where
/// the page began; a frame that points past the identities is a
/// `CountMismatch`. The type string of the identity says how the payload is
/// read. Null chunks and the index are passed over. A page chunk closes the
/// page; it must not count more identities or references than are left,
/// else `CountMismatch`. Every other chunk becomes a logical chunk under
/// the identity of its frame. Chunks behind the last page chunk belong to
/// no page.
pub open spec fn spec_pages(
    frames: Seq<ChunkFrameView>,
    k: int,
    mapped: Seq<StructInfoView>,
    refs: Seq<StructReferenceView>,
    info_at: int,
    ref_at: int,
    structs: Seq<AnyStructView>,
    done: Seq<PageView>,
) -> Result<Seq<PageView>, NuccError>
    decreases frames.len() - k,
{
    if k < 0 || k >= frames.len() {
        Ok(done)
    } else if info_at + frames[k].chunk_map_index >= mapped.len() {
        Err(NuccError::CountMismatch)
    } else {
        let info = mapped[info_at + frames[k].chunk_map_index];
        match spec_read_struct(frames[k].chunk_buffer, info.chunk_type, frames[k].version) {
            Err(e) => Err(e),
            Ok(AnyChunkView::Null(_)) => spec_pages(
                frames,
                k + 1,
                mapped,
                refs,
                info_at,
                ref_at,
                structs,
                done,
            ),
            Ok(AnyChunkView::Index) => spec_pages(
                frames,
                k + 1,
                mapped,
                refs,
                info_at,
                ref_at,
                structs,
                done,
            ),
            Ok(AnyChunkView::Page(page)) => {
                if info_at + page.map_index_count > mapped.len() || ref_at + page.reference_count
                    > refs.len() {
                    Err(NuccError::CountMismatch)
                } else {
                    spec_pages(
                        frames,
                        k + 1,
                        mapped,
                        refs,
                        info_at + page.map_index_count,
                        ref_at + page.reference_count,
                        seq![],
                        done.push(
                            spec_closed_page(
                                structs,
                                mapped,
                                refs,
                                info_at,
                                ref_at,
                                page.map_index_count as int,
                                page.reference_count as int,
                            ),
                        ),
                    )
                }
            },
            Ok(chunk) => match spec_struct_of(
                chunk,
                mapped.subrange(info_at, mapped.len() as int),
                refs.subrange(ref_at, refs.len() as int),
            ) {
                Err(e) => Err(e),
                Ok(s) => spec_pages(
                    frames,
                    k + 1,
                    mapped,
                    refs,
                    info_at,
                    ref_at,
                    structs.push(spec_with_info(s, info)),
                    done,
                ),
            },
        }
    }
}

/// The document that a container stands for.
///
/// The three pools are decoded, names first, then paths, then type
/// strings; the chunk map is resolved into identities, the references into
/// pairs of a name and an identity, and the map indices into the identity
/// of every chunk of every page. Then the frames are gathered into pages.
pub open spec fn spec_xfbin(file: FileView) -> Result<XfbinView, NuccError> {
    match spec_pool_strings(file.index.chunk_names) {
        Err(e) => Err(e),
        Ok(names) => match spec_pool_strings(file.index.file_paths) {
            Err(e) => Err(e),
            Ok(paths) => match spec_pool_strings(file.index.chunk_types) {
                Err(e) => Err(e),
                Ok(types) => match spec_struct_infos(file.index.chunk_maps, names, paths, types) {
                    Err(e) => Err(e),
                    Ok(infos) => match spec_struct_references(
                        file.index.chunk_references,
                        names,
                        infos,
                    ) {
                        Err(e) => Err(e),
                        Ok(refs) => match spec_mapped(file.index.chunk_map_indices, infos) {
                            Err(e) => Err(e),
                            Ok(mapped) => match spec_pages(
                                file.chunks,
                                0,
                                mapped,
                                refs,
                                0,
                                0,
                                seq![],
                                seq![],
                            ) {
                                Err(e) => Err(e),
                                Ok(pages) => Ok(
                                    XfbinView { version: file.header.version, pages },
                                ),
                            },
                        },
                    },
                },
            },
        },
    }
}

/// Resolves the map indices into identities.
fn map_infos(indices: &Vec<u32>, infos: &Vec<NuccStructInfo>) -> (r: Result<
    Vec<NuccStructInfo>,
    NuccError,
>)
    ensures
        r matches Ok(mapped) ==> spec_mapped(indices@, views(infos@)) == Ok::<
            Seq<StructInfoView>,
            NuccError,
        >(views(mapped@)),
        r matches Err(e) ==> spec_mapped(indices@, views(infos@)) == Err::<
            Seq<StructInfoView>,
            NuccError,
        >(e),
{
    let mut mapped: Vec<NuccStructInfo> = Vec::new();
    let mut i: usize = 0;
    while i < indices.len()
        invariant
            i <= indices.len(),
            mapped.len() == i,
            forall|j: int| 0 <= j < i ==> (#[trigger] indices@[j]) < infos@.len(),
            forall|j: int| 0 <= j < i ==> (#[trigger] mapped@[j])@ == infos@[indices@[j] as int]@,
        decreases indices.len() - i,
    {
        if indices[i] as usize >= infos.len() {
            return Err(NuccError::CountMismatch);
        }
        mapped.push(infos[indices[i] as usize].clone());
        i += 1;
    }
    assert(views(mapped@) =~= spec_mapped(indices@, views(infos@))->Ok_0);
    Ok(mapped)
}

/// A copy of the identities from `from` to `to`.
fn copy_infos(infos: &Vec<NuccStructInfo>, from: usize, to: usize) -> (r: Vec<NuccStructInfo>)
    requires
        from <= to <= infos.len(),
    ensures
        views(r@) == views(infos@).subrange(from as int, to as int),
{
    let mut out: Vec<NuccStructInfo> = Vec::new();
    let mut i: usize = from;
    while i < to
        invariant
            from <= i <= to,
            to <= infos.len(),
            out.len() == i - from,
            forall|j: int| 0 <= j < i - from ==> (#[trigger] out@[j])@ == infos@[from + j]@,
        decreases to - i,
    {
        out.push(infos[i].clone());
        i += 1;
    }
    assert(views(out@) =~= views(infos@).subrange(from as int, to as int));
    out
}

/// A copy of the references from `from` to `to`.
fn copy_refs(refs: &Vec<NuccStructReference>, from: usize, to: usize) -> (r: Vec<
    NuccStructReference,
>)
    requires
        from <= to <= refs.len(),
    ensures
        views(r@) == views(refs@).subrange(from as int, to as int),
{
    let mut out: Vec<NuccStructReference> = Vec::new();
    let mut i: usize = from;
    while i < to
        invariant
            from <= i <= to,
            to <= refs.len(),
            out.len() == i - from,
            forall|j: int| 0 <= j < i - from ==> (#[trigger] out@[j])@ == refs@[from + j]@,
        decreases to - i,
    {
        out.push(refs[i].clone());
        i += 1;
    }
    assert(views(out@) =~= views(refs@).subrange(from as int, to as int));
    out
}

/// Gathers the frames into pages.
fn gather_pages(
    frames: &Vec<XfbinChunk>,
    mapped: &Vec<NuccStructInfo>,
    refs: &Vec<NuccStructReference>,
) -> (r: Result<Vec<XfbinPage>, NuccError>)
    ensures
        r matches Ok(pages) ==> spec_pages(
            views(frames@),
            0,
            views(mapped@),
            views(refs@),
            0,
            0,
            seq![],
            seq![],
        ) == Ok::<Seq<PageView>, NuccError>(views(pages@)),
        r matches Err(e) ==> spec_pages(
            views(frames@),
            0,
            views(mapped@),
            views(refs@),
            0,
            0,
            seq![],
            seq![],
        ) == Err::<Seq<PageView>, NuccError>(e),
{
    let mut pages: Vec<XfbinPage> = Vec::new();
    let mut structs: Vec<AnyStruct> = Vec::new();
    let mut info_at: usize = 0;
    let mut ref_at: usize = 0;
    let mut k: usize = 0;
    proof {
        assert(views(pages@) =~= seq![]);
        assert(views(structs@) =~= seq![]);
    }
    while k < frames.len()
        invariant
            k <= frames.len(),
            info_at <= mapped.len(),
            ref_at <= refs.len(),
            spec_pages(views(frames@), 0, views(mapped@), views(refs@), 0, 0, seq![], seq![])
                == spec_pages(
                views(frames@),
                k as int,
                views(mapped@),
                views(refs@),
                info_at as int,
                ref_at as int,
                views(structs@),
                views(pages@),
            ),
        decreases frames.len() - k,
    {
        let frame = &frames[k];
        assert(views(frames@)[k as int] == frame@);
        if frame.chunk_map_index as usize >= mapped.len() - info_at {
            return Err(NuccError::CountMismatch);
        }
        let info = &mapped[info_at + frame.chunk_map_index as usize];
        assert(views(mapped@)[info_at + frame.chunk_map_index] == info@);
        let chunk = match NuccChunkType::read_struct(
            &frame.chunk_buffer,
            info.chunk_type.as_str(),
            frame.version,
        ) {
            Ok(c) => c,
            Err(e) => { return Err(e); },
        };
        match chunk {
            AnyChunk::Null(_) => {},
            AnyChunk::Index(_) => {},
            AnyChunk::Page(page) => {
                let info_count = page.map_index_count as usize;
                let ref_count = page.reference_count as usize;
                if info_count > mapped.len() - info_at || ref_count > refs.len() - ref_at {
                    return Err(NuccError::CountMismatch);
                }
                let ghost before = views(pages@);
                let closed = XfbinPage {
                    structs,
                    struct_infos: copy_infos(mapped, info_at, info_at + info_count),
                    struct_references: copy_refs(refs, ref_at, ref_at + ref_count),
                };
                pages.push(closed);
                assert(views(pages@) =~= before.push(closed@));
                structs = Vec::new();
                assert(views(structs@) =~= seq![]);
                info_at = info_at + info_count;
                ref_at = ref_at + ref_count;
            },
            other => {
                let ghost before = views(structs@);
                let infos_left = slice_subrange(mapped.as_slice(), info_at, mapped.len());
                let refs_left = slice_subrange(refs.as_slice(), ref_at, refs.len());
                proof {
                    assert(views(infos_left@) =~= views(mapped@).subrange(
                        info_at as int,
                        mapped.len() as int,
                    ));
                    assert(views(refs_left@) =~= views(refs@).subrange(
                        ref_at as int,
                        refs.len() as int,
                    ));
                }
                let mut s = match AnyStruct::from_chunk(
                    NuccStructConverter(other, infos_left, refs_left),
                ) {
                    Ok(s) => s,
                    Err(e) => { return Err(e); },
                };
                let ghost plain = s@;
                s.set_struct_info(info.clone());
                assert(s@ == spec_with_info(plain, info@));
                structs.push(s);
                assert(views(structs@) =~= before.push(s@));
            },
        }
        k += 1;
    }
    Ok(pages)
}

impl Xfbin {
    /// Turns a container as it lies in the file into a document.
    pub fn from_file(file: XfbinFile) -> (r: Result<Xfbin, NuccError>)
        ensures
            r matches Ok(x) ==> spec_xfbin(file@) == Ok::<XfbinView, NuccError>(x@),
            r matches Err(e) ==> spec_xfbin(file@) == Err::<XfbinView, NuccError>(e),
    {
        let chunk_names = match file.index.chunk_names.to_strings() {
            Ok(v) => v,
            Err(e) => { return Err(e); },
        };
        let file_paths = match file.index.file_paths.to_strings() {
            Ok(v) => v,
            Err(e) => { return Err(e); },
        };
        let chunk_types = match file.index.chunk_types.to_strings() {
            Ok(v) => v,
            Err(e) => { return Err(e); },
        };
        let struct_infos = match (XfbinChunkMapConverter {
            maps: file.index.chunk_maps,
            chunk_names: chunk_names.as_slice(),
            file_paths: file_paths.as_slice(),
            chunk_types: chunk_types.as_slice(),
        }).to_struct_infos() {
            Ok(v) => v,
            Err(e) => { return Err(e); },
        };
        let struct_references = match XfbinChunkReferenceConverter(
            file.index.chunk_references,
            chunk_names.as_slice(),
            struct_infos.as_slice(),
        ).to_struct_references() {
            Ok(v) => v,
            Err(e) => { return Err(e); },
        };
        let mapped = match map_infos(&file.index.chunk_map_indices, &struct_infos) {
            Ok(v) => v,
            Err(e) => { return Err(e); },
        };
        let pages = match gather_pages(&file.chunks, &mapped, &struct_references) {
            Ok(v) => v,
            Err(e) => { return Err(e); },
        };
        Ok(Xfbin { version: file.header.version, pages })
    }
}

/// What a page in the making holds: its frames so far, and its tables of
/// identities and references.
pub struct PageOut {
    pub frames: Seq<ChunkFrameView>,
    pub infos: Seq<StructInfoView>,
    pub refs: Seq<StructReferenceView>,
}

/// The tables that a page starts from: those that the file had, if one of
/// its chunks is of a type that the library does not interpret, and empty
/// ones otherwise.
pub open spec fn spec_page_start(page: PageView) -> (
    Seq<StructInfoView>,
    Seq<StructReferenceView>,
) {
    if spec_has_unknown(page.structs) {
        (page.struct_infos, page.struct_references)
    } else {
        (seq![], seq![])
    }
}

/// A table of identities with the identities of the null chunk, of the
/// page chunk and of the index entered, in this order.
pub open spec fn spec_reserved(infos: Seq<StructInfoView>) -> Seq<StructInfoView> {
    spec_interned(
        spec_interned(spec_interned(infos, spec_null_info()), spec_page_info()),
        spec_index_info(),
    )
}

/// What a chunk adds to a page: the chunk is turned into a wire chunk,
/// which enters what it names in the tables; then its own identity is
/// entered, and its frame points at the number of that identity. A table
/// that gets full is a `CountMismatch`.
#[verifier::opaque]
pub open spec fn spec_add_struct(out: PageOut, s: AnyStructView) -> Result<PageOut, NuccError> {
    match spec_chunk_of(s, out.infos, out.refs) {
        Err(e) => Err(e),
        Ok((chunk, infos, refs)) => {
            if spec_interned(infos, spec_info_of(s)).len() > u32::MAX {
                Err(NuccError::CountMismatch)
            } else {
                match spec_write_struct(chunk) {
                    Err(e) => Err(e),
                    Ok(chunk_buffer) => Ok(
                        PageOut {
                            frames: out.frames.push(
                                ChunkFrameView {
                                    chunk_map_index: spec_number(infos, spec_info_of(s)) as u32,
                                    version: spec_struct_version(s),
                                    chunk_buffer,
                                },
                            ),
                            infos: spec_interned(infos, spec_info_of(s)),
                            refs,
                        },
                    ),
                }
            }
        },
    }
}

/// What the first `upto` chunks add to a page; the first chunk that fails
/// decides.
pub open spec fn spec_add_structs(out: PageOut, structs: Seq<AnyStructView>, upto: int) -> Result<
    PageOut,
    NuccError,
>
    decreases upto,
{
    if upto <= 0 || upto > structs.len() {
        Ok(out)
    } else {
        match spec_add_structs(out, structs, upto - 1) {
            Err(e) => Err(e),
            Ok(so_far) => spec_add_struct(so_far, structs[upto - 1]),
        }
    }
}

/// The frames that a page is written as, and its tables at its end.
///
/// The page starts from the tables that the file had, or from empty ones.
/// The identities of the null chunk, of the page chunk and of the index are
/// entered first. A null frame opens the page, the frames of the chunks
/// follow, and a page frame closes it, which tells how many identities and
/// references the tables hold at the end. The null frame and the page frame
/// bear the version of the document. Tables with more entries than a `u32`
/// counts are a `CountMismatch`.
#[verifier::opaque]
pub open spec fn spec_page_frames(page: PageView, version: u16) -> Result<PageOut, NuccError> {
    let start = spec_page_start(page);
    let reserved = spec_reserved(start.0);
    if start.0.len() > u32::MAX || start.1.len() > u32::MAX || reserved.len() > u32::MAX {
        Err(NuccError::CountMismatch)
    } else {
        match spec_add_structs(
            PageOut {
                frames: seq![
                    ChunkFrameView {
                        chunk_map_index: spec_number(start.0, spec_null_info()) as u32,
                        version,
                        chunk_buffer: seq![],
                    },
                ],
                infos: reserved,
                refs: start.1,
            },
            page.structs,
            page.structs.len() as int,
        ) {
            Err(e) => Err(e),
            Ok(body) => Ok(
                PageOut {
                    frames: body.frames.push(
                        ChunkFrameView {
                            chunk_map_index: spec_number(body.infos, spec_page_info()) as u32,
                            version,
                            chunk_buffer: spec_page_bytes(
                                NuccChunkPage {
                                    version,
                                    map_index_count: body.infos.len() as u32,
                                    reference_count: body.refs.len() as u32,
                                },
                            ),
                        },
                    ),
                    ..body
                },
            ),
        }
    }
}

/// The bytes that a run of frames takes in the file.
pub open spec fn spec_frames_len(frames: Seq<ChunkFrameView>) -> int
    decreases frames.len(),
{
    if frames.len() == 0 {
        0
    } else {
        spec_frames_len(frames.drop_last()) + 12 + frames.last().chunk_buffer.len()
    }
}

/// What a file in the making holds: its frames so far, the identities of
/// the file without repetition, the map indices, the references of all
/// pages one behind the other, and the bytes of its longest page.
pub struct FileOut {
    pub frames: Seq<ChunkFrameView>,
    pub infos: Seq<StructInfoView>,
    pub indices: Seq<u32>,
    pub refs: Seq<StructReferenceView>,
    pub longest: int,
}

/// What a page adds to a file: its frames; its identities, each entered in
/// the identities of the file, and the numbers they get there as map
/// indices; and its references.
#[verifier::opaque]
pub open spec fn spec_add_page(out: FileOut, page: PageView, version: u16) -> Result<
    FileOut,
    NuccError,
> {
    match spec_page_frames(page, version) {
        Err(e) => Err(e),
        Ok(done) => {
            if spec_intern_all(out.infos, done.infos).len() > u32::MAX {
                Err(NuccError::CountMismatch)
            } else {
                Ok(
                    FileOut {
                        frames: out.frames + done.frames,
                        infos: spec_intern_all(out.infos, done.infos),
                        indices: out.indices + spec_numbers(out.infos, done.infos),
                        refs: out.refs + done.refs,
                        longest: if spec_frames_len(done.frames) > out.longest {
                            spec_frames_len(done.frames)
                        } else {
                            out.longest
                        },
                    },
                )
            }
        },
    }
}

/// What the first `upto` pages add to an empty file; the first page that
/// fails decides.
pub open spec fn spec_add_pages(pages: Seq<PageView>, upto: int, version: u16) -> Result<
    FileOut,
    NuccError,
>
    decreases upto,
{
    if upto <= 0 || upto > pages.len() {
        Ok(FileOut { frames: seq![], infos: seq![], indices: seq![], refs: seq![], longest: 0 })
    } else {
        match spec_add_pages(pages, upto - 1, version) {
            Err(e) => Err(e),
            Ok(so_far) => spec_add_page(so_far, pages[upto - 1], version),
        }
    }
}

/// The names of a run of references.
pub open spec fn spec_ref_names(refs: Seq<StructReferenceView>) -> Seq<Seq<char>> {
    Seq::new(refs.len(), |i: int| refs[i].name)
}

/// The identities that a run of references points at.
pub open spec fn spec_ref_targets(refs: Seq<StructReferenceView>) -> Seq<StructInfoView> {
    Seq::new(refs.len(), |i: int| refs[i].target)
}

/// The type strings of a run of identities.
pub open spec fn spec_info_types(infos: Seq<StructInfoView>) -> Seq<Seq<char>> {
    Seq::new(infos.len(), |i: int| infos[i].chunk_type)
}

/// The paths of a run of identities.
pub open spec fn spec_info_paths(infos: Seq<StructInfoView>) -> Seq<Seq<char>> {
    Seq::new(infos.len(), |i: int| infos[i].file_path)
}

/// The names of a run of identities.
pub open spec fn spec_info_names(infos: Seq<StructInfoView>) -> Seq<Seq<char>> {
    Seq::new(infos.len(), |i: int| infos[i].chunk_name)
}

/// The pool that holds `strings`.
pub open spec fn spec_pool(strings: Seq<Seq<char>>) -> DataBufferView {
    DataBufferView { data: spec_pool_bytes(strings), count: strings.len() as u32 }
}

/// The index of a file that holds the identities `infos`, the map indices
/// `indices` and the references `refs`.
///
/// The references come first: the name of each is entered in the pool of
/// names and its identity in the identities of the file, which may grow by
/// that. Then every identity gives a chunk map entry: its type string, its
/// path and its name are entered in their pools, and the name pool goes on
/// from where the references left it. In every pool a string has the
/// number of the place where it first came. A list with more entries than
/// a `u32` counts is a `CountMismatch`; a string that cannot be written as
/// code page 932 is a `StringDecode` error.
#[verifier::opaque]
pub open spec fn spec_index_of(out: FileOut, version: u16) -> Result<IndexView, NuccError> {
    let empty = Seq::<Seq<char>>::empty();
    let ref_names = spec_ref_names(out.refs);
    let names1 = spec_intern_all(empty, ref_names);
    let infos = spec_intern_all(out.infos, spec_ref_targets(out.refs));
    let types = spec_intern_all(empty, spec_info_types(infos));
    let paths = spec_intern_all(empty, spec_info_paths(infos));
    let names = spec_intern_all(names1, spec_info_names(infos));
    let name_numbers = spec_numbers(empty, ref_names);
    let info_numbers = spec_numbers(out.infos, spec_ref_targets(out.refs));
    let type_indices = spec_numbers(empty, spec_info_types(infos));
    let path_indices = spec_numbers(empty, spec_info_paths(infos));
    let name_indices = spec_numbers(names1, spec_info_names(infos));
    if out.longest > u32::MAX || infos.len() > u32::MAX || names.len() > u32::MAX {
        Err(NuccError::CountMismatch)
    } else if !(spec_all_encodable(types) && spec_all_encodable(paths) && spec_all_encodable(
        names,
    )) {
        Err(NuccError::StringDecode)
    } else {
        Ok(
            IndexView {
                min_page_size: out.longest as u32,
                version,
                unknown: 0,
                chunk_types: spec_pool(types),
                file_paths: spec_pool(paths),
                chunk_names: spec_pool(names),
                chunk_maps: Seq::new(
                    infos.len(),
                    |i: int|
                        XfbinChunkMap {
                            chunk_type_index: type_indices[i],
                            file_path_index: path_indices[i],
                            chunk_name_index: name_indices[i],
                        },
                ),
                chunk_references: Seq::new(
                    out.refs.len(),
                    |i: int| (name_numbers[i], info_numbers[i]),
                ),
                chunk_map_indices: out.indices,
            },
        )
    }
}

/// The container that a document is written as.
pub open spec fn spec_xfbin_file(x: XfbinView) -> Result<FileView, NuccError> {
    match spec_add_pages(x.pages, x.pages.len() as int, x.version) {
        Err(e) => Err(e),
        Ok(out) => match spec_index_of(out, x.version) {
            Err(e) => Err(e),
            Ok(index) => Ok(
                FileView {
                    header: XfbinHeader { version: x.version, encrypted: false },
                    index,
                    chunks: out.frames,
                },
            ),
        },
    }
}

/// What a chunk adds to the tables of its page comes behind what they
/// held, and leaves them no longer than a `u32` counts.
pub proof fn lemma_add_struct_tables(out: PageOut, s: AnyStructView)
    requires
        spec_add_struct(out, s) is Ok,
        out.infos.len() <= u32::MAX,
        out.refs.len() <= u32::MAX,
    ensures
        spec_is_prefix(out.infos, spec_add_struct(out, s)->Ok_0.infos),
        spec_is_prefix(out.refs, spec_add_struct(out, s)->Ok_0.refs),
        spec_add_struct(out, s)->Ok_0.infos.len() <= u32::MAX,
        spec_add_struct(out, s)->Ok_0.refs.len() <= u32::MAX,
        spec_add_struct(out, s)->Ok_0.frames.len() == out.frames.len() + 1,
        spec_is_prefix(out.frames, spec_add_struct(out, s)->Ok_0.frames),
{
    reveal(spec_add_struct);
    let made = spec_chunk_of(s, out.infos, out.refs)->Ok_0;
    match s {
        AnyStructView::Anm(anm) => {
            lemma_anm_chunk_tables(anm, out.infos, out.refs);
        },
        _ => {},
    }
    lemma_interned(made.1, spec_info_of(s));
}

/// What the chunks of a page add to its tables comes behind what they
/// held, and leaves them no longer than a `u32` counts; each chunk adds one
/// frame.
pub proof fn lemma_add_structs_tables(out: PageOut, structs: Seq<AnyStructView>, upto: int)
    requires
        0 <= upto <= structs.len(),
        spec_add_structs(out, structs, upto) is Ok,
        out.infos.len() <= u32::MAX,
        out.refs.len() <= u32::MAX,
    ensures
        spec_is_prefix(out.infos, spec_add_structs(out, structs, upto)->Ok_0.infos),
        spec_is_prefix(out.refs, spec_add_structs(out, structs, upto)->Ok_0.refs),
        spec_add_structs(out, structs, upto)->Ok_0.infos.len() <= u32::MAX,
        spec_add_structs(out, structs, upto)->Ok_0.refs.len() <= u32::MAX,
        spec_add_structs(out, structs, upto)->Ok_0.frames.len() == out.frames.len() + upto,
        spec_is_prefix(out.frames, spec_add_structs(out, structs, upto)->Ok_0.frames),
    decreases upto,
{
    if upto > 0 {
        lemma_add_structs_tables(out, structs, upto - 1);
        lemma_add_struct_tables(spec_add_structs(out, structs, upto - 1)->Ok_0, structs[upto - 1]);
    }
}

/// The page chunk that closes a written page tells how many identities
/// and how many references the page has contributed: the lengths of the
/// tables of the page at its end. A null frame opens the page, one frame
/// follows for each chunk, and the frame of the page chunk comes last.
pub proof fn lemma_page_counts(page: PageView, version: u16)
    requires
        spec_page_frames(page, version) is Ok,
    ensures
        ({
            let out = spec_page_frames(page, version)->Ok_0;
            &&& out.frames.len() == page.structs.len() + 2
            &&& out.frames[0].chunk_buffer.len() == 0
            &&& out.infos.len() <= u32::MAX
            &&& out.refs.len() <= u32::MAX
            &&& spec_page(out.frames.last().chunk_buffer, version) == Ok::<NuccChunkPage, NuccError>(
                NuccChunkPage {
                    version,
                    map_index_count: out.infos.len() as u32,
                    reference_count: out.refs.len() as u32,
                },
            )
            &&& spec_position(out.infos, spec_null_info()) is Some
            &&& spec_position(out.infos, spec_page_info()) is Some
            &&& spec_position(out.infos, spec_index_info()) is Some
            &&& out.frames.last().chunk_map_index == spec_position(
                out.infos,
                spec_page_info(),
            )->Some_0
        }),
{
    reveal(spec_page_frames);
    let start = spec_page_start(page);
    let with_null = spec_interned(start.0, spec_null_info());
    let with_page = spec_interned(with_null, spec_page_info());
    let reserved = spec_interned(with_page, spec_index_info());
    lemma_interned(start.0, spec_null_info());
    lemma_interned(with_null, spec_page_info());
    lemma_interned(with_page, spec_index_info());
    let first = PageOut {
        frames: seq![
            ChunkFrameView {
                chunk_map_index: spec_number(start.0, spec_null_info()) as u32,
                version,
                chunk_buffer: seq![],
            },
        ],
        infos: reserved,
        refs: start.1,
    };
    lemma_add_structs_tables(first, page.structs, page.structs.len() as int);
    let body = spec_add_structs(first, page.structs, page.structs.len() as int)->Ok_0;
    lemma_page_round_trip(
        NuccChunkPage {
            version,
            map_index_count: body.infos.len() as u32,
            reference_count: body.refs.len() as u32,
        },
    );
    let n0 = spec_number(start.0, spec_null_info());
    let n1 = spec_number(with_null, spec_page_info());
    let n2 = spec_number(with_page, spec_index_info());
    assert(with_page[n0] == spec_null_info());
    assert(reserved[n0] == spec_null_info());
    assert(reserved[n1] == spec_page_info());
    assert(body.infos[n0] == spec_null_info());
    assert(body.infos[n1] == spec_page_info());
    assert(body.infos[n2] == spec_index_info());
    lemma_found(body.infos, spec_null_info(), n0);
    lemma_found(body.infos, spec_page_info(), n1);
    lemma_found(body.infos, spec_index_info(), n2);
    assert(body.frames[0] == first.frames[0]);
}

/// An item that stands in a list has a first position there.
pub proof fn lemma_found<K>(items: Seq<K>, item: K, at: int)
    requires
        0 <= at < items.len(),
        items[at] == item,
    ensures
        spec_position(items, item) is Some,
        0 <= spec_position(items, item)->Some_0 <= at,
{
    crate::table::lemma_position(items, item);
    let found = spec_position(items, item)->Some_0;
    if found > at {
        assert(items[at] != item);
    }
}

/// A written page adds to the file as many map indices as its page chunk
/// counts identities, and as many references as it counts references.
pub proof fn lemma_page_contribution(out: FileOut, page: PageView, version: u16)
    requires
        spec_add_page(out, page, version) is Ok,
    ensures
        spec_page_frames(page, version) is Ok,
        ({
            let done = spec_page_frames(page, version)->Ok_0;
            let after = spec_add_page(out, page, version)->Ok_0;
            &&& after.frames == out.frames + done.frames
            &&& after.indices.len() == out.indices.len() + done.infos.len()
            &&& after.refs.len() == out.refs.len() + done.refs.len()
            &&& spec_page(done.frames.last().chunk_buffer, version) == Ok::<
                NuccChunkPage,
                NuccError,
            >(
                NuccChunkPage {
                    version,
                    map_index_count: (after.indices.len() - out.indices.len()) as u32,
                    reference_count: (after.refs.len() - out.refs.len()) as u32,
                },
            )
        }),
{
    reveal(spec_add_page);
    lemma_page_counts(page, version);
}

/// What holds of a file in the making: no identity stands twice among the
/// identities of the file, of which there are no more than a `u32` counts,
/// and every map index points at one of them.
pub open spec fn spec_file_in_order(out: FileOut) -> bool {
    &&& spec_no_duplicates(out.infos)
    &&& out.infos.len() <= u32::MAX
    &&& forall|i: int| 0 <= i < out.indices.len() ==> (#[trigger] out.indices[i]) < out.infos.len()
    &&& out.longest >= 0
}

/// A file put together from pages is in order.
pub proof fn lemma_pages_in_order(pages: Seq<PageView>, upto: int, version: u16)
    requires
        0 <= upto <= pages.len(),
        spec_add_pages(pages, upto, version) is Ok,
    ensures
        spec_file_in_order(spec_add_pages(pages, upto, version)->Ok_0),
    decreases upto,
{
    reveal(spec_add_page);
    if upto > 0 {
        lemma_pages_in_order(pages, upto - 1, version);
        let out = spec_add_pages(pages, upto - 1, version)->Ok_0;
        let done = spec_page_frames(pages[upto - 1], version)->Ok_0;
        let after = spec_add_pages(pages, upto, version)->Ok_0;
        lemma_intern_all_grows(out.infos, done.infos);
        lemma_numbers_in_range(out.infos, done.infos);
        lemma_frames_len_nonnegative(done.frames);
        assert forall|i: int| 0 <= i < after.indices.len() implies (#[trigger] after.indices[i])
            < after.infos.len() by {
            if i < out.indices.len() {
                assert(after.indices[i] == out.indices[i]);
            } else {
                assert(after.indices[i] == spec_numbers(out.infos, done.infos)[i
                    - out.indices.len()]);
            }
        }
    }
}

/// The identities of a written file: those of its pages, and behind them
/// those that only references point at.
pub open spec fn spec_written_infos(out: FileOut) -> Seq<StructInfoView> {
    spec_intern_all(out.infos, spec_ref_targets(out.refs))
}

/// The type strings of a written file, in the order of their pool.
pub open spec fn spec_written_types(out: FileOut) -> Seq<Seq<char>> {
    spec_intern_all(Seq::<Seq<char>>::empty(), spec_info_types(spec_written_infos(out)))
}

/// The paths of a written file, in the order of their pool.
pub open spec fn spec_written_paths(out: FileOut) -> Seq<Seq<char>> {
    spec_intern_all(Seq::<Seq<char>>::empty(), spec_info_paths(spec_written_infos(out)))
}

/// The names of a written file, in the order of their pool: those of the
/// references first, then those of the identities.
pub open spec fn spec_written_names(out: FileOut) -> Seq<Seq<char>> {
    spec_intern_all(
        spec_intern_all(Seq::<Seq<char>>::empty(), spec_ref_names(out.refs)),
        spec_info_names(spec_written_infos(out)),
    )
}

/// The index of a written file is sound. Its three pools hold the strings
/// of the file, none twice. The chunk map has one entry for each identity
/// of the file, none twice, and each entry points at the type string, the
/// path and the name of its identity. Each reference points at its name and
/// at its identity. Every map index points at an entry of the chunk map.
pub proof fn lemma_written_index(out: FileOut, version: u16)
    requires
        spec_file_in_order(out),
        spec_index_of(out, version) is Ok,
    ensures
        ({
            let index = spec_index_of(out, version)->Ok_0;
            let infos = spec_written_infos(out);
            let types = spec_written_types(out);
            let paths = spec_written_paths(out);
            let names = spec_written_names(out);
            &&& index.chunk_types == spec_pool(types)
            &&& index.file_paths == spec_pool(paths)
            &&& index.chunk_names == spec_pool(names)
            &&& spec_no_duplicates(types)
            &&& spec_no_duplicates(paths)
            &&& spec_no_duplicates(names)
            &&& spec_no_duplicates(infos)
            &&& types.len() <= u32::MAX && paths.len() <= u32::MAX && names.len() <= u32::MAX
            &&& index.chunk_maps.len() == infos.len()
            &&& forall|i: int|
                0 <= i < infos.len() ==> {
                    let map = #[trigger] index.chunk_maps[i];
                    &&& map.chunk_type_index < types.len()
                    &&& map.file_path_index < paths.len()
                    &&& map.chunk_name_index < names.len()
                    &&& types[map.chunk_type_index as int] == infos[i].chunk_type
                    &&& paths[map.file_path_index as int] == infos[i].file_path
                    &&& names[map.chunk_name_index as int] == infos[i].chunk_name
                }
            &&& index.chunk_references.len() == out.refs.len()
            &&& forall|i: int|
                0 <= i < out.refs.len() ==> {
                    let pair = #[trigger] index.chunk_references[i];
                    &&& pair.0 < names.len()
                    &&& pair.1 < infos.len()
                    &&& names[pair.0 as int] == out.refs[i].name
                    &&& infos[pair.1 as int] == out.refs[i].target
                }
            &&& index.chunk_map_indices == out.indices
            &&& forall|i: int|
                0 <= i < index.chunk_map_indices.len() ==> (#[trigger] index.chunk_map_indices[i])
                    < index.chunk_maps.len()
        }),
{
    reveal(spec_index_of);
    let empty = Seq::<Seq<char>>::empty();
    let ref_names = spec_ref_names(out.refs);
    let targets = spec_ref_targets(out.refs);
    let names1 = spec_intern_all(empty, ref_names);
    let infos = spec_written_infos(out);
    let types = spec_written_types(out);
    let paths = spec_written_paths(out);
    let names = spec_written_names(out);
    lemma_intern_all_grows(empty, ref_names);
    lemma_intern_all_grows(out.infos, targets);
    lemma_intern_all_grows(empty, spec_info_types(infos));
    lemma_intern_all_grows(empty, spec_info_paths(infos));
    lemma_intern_all_grows(names1, spec_info_names(infos));
    lemma_intern_all_len(empty, spec_info_types(infos));
    lemma_intern_all_len(empty, spec_info_paths(infos));
    lemma_numbers_in_range(empty, ref_names);
    lemma_numbers_in_range(out.infos, targets);
    lemma_numbers_in_range(empty, spec_info_types(infos));
    lemma_numbers_in_range(empty, spec_info_paths(infos));
    lemma_numbers_in_range(names1, spec_info_names(infos));
    let index = spec_index_of(out, version)->Ok_0;
    assert forall|i: int| 0 <= i < out.refs.len() implies {
        let pair = #[trigger] index.chunk_references[i];
        &&& pair.0 < names.len()
        &&& pair.1 < infos.len()
        &&& names[pair.0 as int] == out.refs[i].name
        &&& infos[pair.1 as int] == out.refs[i].target
    } by {
        let n = spec_numbers(empty, ref_names)[i];
        assert(names1[n as int] == ref_names[i]);
        assert(names[n as int] == names1[n as int]);
        let t = spec_numbers(out.infos, targets)[i];
        assert(infos[t as int] == targets[i]);
    }
    assert forall|i: int| 0 <= i < infos.len() implies {
        let map = #[trigger] index.chunk_maps[i];
        &&& map.chunk_type_index < types.len()
        &&& map.file_path_index < paths.len()
        &&& map.chunk_name_index < names.len()
        &&& types[map.chunk_type_index as int] == infos[i].chunk_type
        &&& paths[map.file_path_index as int] == infos[i].file_path
        &&& names[map.chunk_name_index as int] == infos[i].chunk_name
    } by {
        let a = spec_numbers(empty, spec_info_types(infos))[i];
        assert(types[a as int] == spec_info_types(infos)[i]);
        let b = spec_numbers(empty, spec_info_paths(infos))[i];
        assert(paths[b as int] == spec_info_paths(infos)[i]);
        let c = spec_numbers(names1, spec_info_names(infos))[i];
        assert(names[c as int] == spec_info_names(infos)[i]);
    }
}

/// The index of the file that a document is written as is sound, as
/// `lemma_written_index` says it.
pub proof fn lemma_written_file(x: XfbinView)
    requires
        spec_xfbin_file(x) is Ok,
    ensures
        spec_add_pages(x.pages, x.pages.len() as int, x.version) is Ok,
        spec_file_in_order(spec_add_pages(x.pages, x.pages.len() as int, x.version)->Ok_0),
        spec_index_of(
            spec_add_pages(x.pages, x.pages.len() as int, x.version)->Ok_0,
            x.version,
        ) == Ok::<IndexView, NuccError>(spec_xfbin_file(x)->Ok_0.index),
        spec_xfbin_file(x)->Ok_0.chunks == spec_add_pages(
            x.pages,
            x.pages.len() as int,
            x.version,
        )->Ok_0.frames,
{
    lemma_pages_in_order(x.pages, x.pages.len() as int, x.version);
}

impl XfbinPage {
    /// The tables that the page starts from when it is written: those that
    /// the file had, if one of its chunks is of a type that the library
    /// does not interpret, and empty ones otherwise.
    pub fn tables(&self) -> (r: Result<
        (Table<NuccStructInfo>, Table<NuccStructReference>),
        NuccError,
    >)
        ensures
            r matches Ok((infos, refs)) ==> infos.wf() && refs.wf() && (infos@, refs@)
                == spec_page_start(self@),
            r matches Err(e) ==> e == NuccError::CountMismatch,
            r is Err <==> spec_page_start(self@).0.len() > u32::MAX || spec_page_start(
                self@,
            ).1.len() > u32::MAX,
    {
        if self.has_unknown_chunk() {
            let infos = match Table::from_items(&self.struct_infos) {
                Ok(t) => t,
                Err(e) => { return Err(e); },
            };
            let refs = match Table::from_items(&self.struct_references) {
                Ok(t) => t,
                Err(e) => { return Err(e); },
            };
            Ok((infos, refs))
        } else {
            Ok((Table::new(), Table::new()))
        }
    }

    /// Takes the page apart: its chunks, and the tables that it starts
    /// from when it is written.
    pub fn destructure(self) -> (r: Result<
        (Vec<AnyStruct>, Table<NuccStructInfo>, Table<NuccStructReference>),
        NuccError,
    >)
        ensures
            r matches Ok((structs, infos, refs)) ==> infos.wf() && refs.wf() && views(structs@)
                == self@.structs && (infos@, refs@) == spec_page_start(self@),
            r matches Err(e) ==> e == NuccError::CountMismatch,
            r is Err <==> spec_page_start(self@).0.len() > u32::MAX || spec_page_start(
                self@,
            ).1.len() > u32::MAX,
    {
        match self.tables() {
            Ok((infos, refs)) => Ok((self.structs, infos, refs)),
            Err(e) => Err(e),
        }
    }
}

/// The version of a wire chunk is the version of the logical chunk that it
/// was made from.
proof fn lemma_chunk_version(
    s: AnyStructView,
    infos: Seq<StructInfoView>,
    refs: Seq<StructReferenceView>,
)
    requires
        spec_chunk_of(s, infos, refs) is Ok,
    ensures
        crate::nucc_chunk::spec_version_of(spec_chunk_of(s, infos, refs)->Ok_0.0)
            == spec_struct_version(s),
{
    reveal(crate::nucc::nucc_anm::pack::spec_anm_chunk);
}

/// Appends the frame of a chunk to a page.
fn add_struct(
    s: &AnyStruct,
    frames: &mut Vec<XfbinChunk>,
    page_struct_infos: &mut Table<NuccStructInfo>,
    page_struct_references: &mut Table<NuccStructReference>,
) -> (r: Result<(), NuccError>)
    requires
        old(page_struct_infos).wf(),
        old(page_struct_references).wf(),
    ensures
        final(page_struct_infos).wf(),
        final(page_struct_references).wf(),
        r is Ok ==> spec_add_struct(
            PageOut {
                frames: views(old(frames)@),
                infos: old(page_struct_infos)@,
                refs: old(page_struct_references)@,
            },
            s@,
        ) == Ok::<PageOut, NuccError>(
            PageOut {
                frames: views(final(frames)@),
                infos: final(page_struct_infos)@,
                refs: final(page_struct_references)@,
            },
        ),
        r matches Err(e) ==> spec_add_struct(
            PageOut {
                frames: views(old(frames)@),
                infos: old(page_struct_infos)@,
                refs: old(page_struct_references)@,
            },
            s@,
        ) == Err::<PageOut, NuccError>(e),
{
    reveal(spec_add_struct);
    let ghost infos0 = page_struct_infos@;
    let ghost refs0 = page_struct_references@;
    let chunk = match s.to_chunk(page_struct_infos, page_struct_references) {
        Ok(c) => c,
        Err(e) => { return Err(e); },
    };
    proof {
        lemma_chunk_version(s@, infos0, refs0);
        lemma_interned(page_struct_infos@, spec_info_of(s@));
        page_struct_infos.lemma_len();
        assert(s.spec_struct_info() == spec_info_of(s@));
    }
    let number = match page_struct_infos.intern(s.struct_info().clone()) {
        Ok(n) => n,
        Err(e) => { return Err(e); },
    };
    let mut frame = match XfbinChunk::repack(&chunk) {
        Ok(f) => f,
        Err(e) => { return Err(e); },
    };
    frame.chunk_map_index = number;
    let ghost before = views(frames@);
    frames.push(frame);
    assert(views(frames@) =~= before.push(frame@));
    Ok(())
}

/// When the chunks before the `k`-th can be written and the `k`-th cannot,
/// the run fails as the `k`-th does.
proof fn lemma_add_structs_err(
    out: PageOut,
    structs: Seq<AnyStructView>,
    upto: int,
    k: int,
    e: NuccError,
)
    requires
        0 <= k < upto <= structs.len(),
        spec_add_structs(out, structs, k + 1) == Err::<PageOut, NuccError>(e),
    ensures
        spec_add_structs(out, structs, upto) == Err::<PageOut, NuccError>(e),
    decreases upto,
{
    if k + 1 < upto {
        lemma_add_structs_err(out, structs, upto - 1, k, e);
    }
}

/// Appends the frames of the chunks of a page.
fn add_structs(
    structs: &Vec<AnyStruct>,
    frames: &mut Vec<XfbinChunk>,
    page_struct_infos: &mut Table<NuccStructInfo>,
    page_struct_references: &mut Table<NuccStructReference>,
) -> (r: Result<(), NuccError>)
    requires
        old(page_struct_infos).wf(),
        old(page_struct_references).wf(),
    ensures
        final(page_struct_infos).wf(),
        final(page_struct_references).wf(),
        r is Ok ==> spec_add_structs(
            PageOut {
                frames: views(old(frames)@),
                infos: old(page_struct_infos)@,
                refs: old(page_struct_references)@,
            },
            views(structs@),
            structs.len() as int,
        ) == Ok::<PageOut, NuccError>(
            PageOut {
                frames: views(final(frames)@),
                infos: final(page_struct_infos)@,
                refs: final(page_struct_references)@,
            },
        ),
        r matches Err(e) ==> spec_add_structs(
            PageOut {
                frames: views(old(frames)@),
                infos: old(page_struct_infos)@,
                refs: old(page_struct_references)@,
            },
            views(structs@),
            structs.len() as int,
        ) == Err::<PageOut, NuccError>(e),
{
    let ghost start = PageOut {
        frames: views(frames@),
        infos: page_struct_infos@,
        refs: page_struct_references@,
    };
    let ghost all = views(structs@);
    let mut k: usize = 0;
    while k < structs.len()
        invariant
            k <= structs.len(),
            all == views(structs@),
            start == (PageOut {
                frames: views(old(frames)@),
                infos: old(page_struct_infos)@,
                refs: old(page_struct_references)@,
            }),
            page_struct_infos.wf(),
            page_struct_references.wf(),
            spec_add_structs(start, all, k as int) == Ok::<PageOut, NuccError>(
                PageOut {
                    frames: views(frames@),
                    infos: page_struct_infos@,
                    refs: page_struct_references@,
                },
            ),
        decreases structs.len() - k,
    {
        assert(all[k as int] == structs@[k as int]@);
        match add_struct(&structs[k], frames, page_struct_infos, page_struct_references) {
            Ok(()) => {},
            Err(e) => {
                proof {
                    assert(spec_add_structs(start, all, k + 1) == Err::<PageOut, NuccError>(e));
                    lemma_add_structs_err(start, all, all.len() as int, k as int, e);
                }
                return Err(e);
            },
        }
        k += 1;
    }
    Ok(())
}

/// The frames that a page is written as, and its tables at its end.
fn pack_page(page: &XfbinPage, version: u16) -> (r: Result<
    (Vec<XfbinChunk>, Vec<NuccStructInfo>, Vec<NuccStructReference>),
    NuccError,
>)
    ensures
        r matches Ok((frames, infos, refs)) ==> spec_page_frames(page@, version) == Ok::<
            PageOut,
            NuccError,
        >(PageOut { frames: views(frames@), infos: views(infos@), refs: views(refs@) })
            && infos.len() <= u32::MAX,
        r matches Err(e) ==> spec_page_frames(page@, version) == Err::<PageOut, NuccError>(e),
{
    reveal(spec_page_frames);
    let (mut infos, mut refs) = match page.tables() {
        Ok(v) => v,
        Err(e) => { return Err(e); },
    };
    let ghost start = spec_page_start(page@);
    proof {
        lemma_interned(start.0, spec_null_info());
        lemma_interned(spec_interned(start.0, spec_null_info()), spec_page_info());
        lemma_interned(
            spec_interned(spec_interned(start.0, spec_null_info()), spec_page_info()),
            spec_index_info(),
        );
    }
    let null_number = match infos.intern(NuccChunkNull::default_chunk_info()) {
        Ok(n) => n,
        Err(e) => { return Err(e); },
    };
    match infos.intern(NuccChunkPage::default_chunk_info()) {
        Ok(n) => {},
        Err(e) => { return Err(e); },
    }
    match infos.intern(NuccChunkIndex::default_chunk_info()) {
        Ok(n) => {},
        Err(e) => { return Err(e); },
    }
    let mut frames: Vec<XfbinChunk> = Vec::new();
    frames.push(XfbinChunk { chunk_map_index: null_number, version, chunk_buffer: Vec::new() });
    proof {
        assert(views(frames@) =~= seq![
            ChunkFrameView {
                chunk_map_index: spec_number(start.0, spec_null_info()) as u32,
                version,
                chunk_buffer: seq![],
            },
        ]);
    }
    match add_structs(&page.structs, &mut frames, &mut infos, &mut refs) {
        Ok(()) => {},
        Err(e) => { return Err(e); },
    }
    proof {
        infos.lemma_len();
        refs.lemma_len();
    }
    let page_number = match infos.find(&NuccChunkPage::default_chunk_info()) {
        Some(n) => n,
        None => infos.len() as u32,
    };
    let closing = NuccChunkPage {
        version,
        map_index_count: infos.len() as u32,
        reference_count: refs.len() as u32,
    };
    let mut chunk_buffer: Vec<u8> = Vec::new();
    closing.write(&mut chunk_buffer);
    assert(chunk_buffer@ =~= spec_page_bytes(closing));
    let ghost before = views(frames@);
    let last = XfbinChunk { chunk_map_index: page_number, version, chunk_buffer };
    frames.push(last);
    assert(views(frames@) =~= before.push(last@));
    Ok((frames, infos.into_items(), refs.into_items()))
}

/// The bytes that a run of frames takes in the file, or one more than a
/// `u32` holds when they are more than that.
fn frames_len(frames: &Vec<XfbinChunk>) -> (r: u64)
    ensures
        r == (if spec_frames_len(views(frames@)) > u32::MAX {
            u32::MAX + 1
        } else {
            spec_frames_len(views(frames@))
        }),
{
    let mut total: u64 = 0;
    let mut i: usize = 0;
    assert(views(frames@).subrange(0, 0) =~= seq![]);
    while i < frames.len()
        invariant
            i <= frames.len(),
            0 <= spec_frames_len(views(frames@).subrange(0, i as int)),
            total == (if spec_frames_len(views(frames@).subrange(0, i as int)) > u32::MAX {
                u32::MAX + 1
            } else {
                spec_frames_len(views(frames@).subrange(0, i as int))
            }),
        decreases frames.len() - i,
    {
        let ghost next = views(frames@).subrange(0, i + 1);
        proof {
            assert(next.drop_last() =~= views(frames@).subrange(0, i as int));
            assert(next.last() == frames@[i as int]@);
        }
        let size = frames[i].chunk_buffer.len();
        if size > 0xffff_ffff || total + 12 + size as u64 > 0xffff_ffff {
            total = 0x1_0000_0000;
        } else {
            total = total + 12 + size as u64;
        }
        i += 1;
    }
    assert(views(frames@).subrange(0, frames.len() as int) =~= views(frames@));
    total
}

/// The lists that a file is put together from, while they grow.
struct FileGrowing {
    frames: Vec<XfbinChunk>,
    infos: Table<NuccStructInfo>,
    indices: Vec<u32>,
    refs: Vec<NuccStructReference>,
    longest: u64,
}

impl FileGrowing {
    /// What the lists hold.
    spec fn out(self) -> FileOut {
        FileOut {
            frames: views(self.frames@),
            infos: self.infos@,
            indices: self.indices@,
            refs: views(self.refs@),
            longest: self.longest as int,
        }
    }

    /// Whether `out` is what the lists hold, the bytes of the longest page
    /// counted no further than one more than a `u32` holds.
    spec fn holds(self, out: FileOut) -> bool {
        &&& self.infos.wf()
        &&& out.frames == views(self.frames@)
        &&& out.infos == self.infos@
        &&& out.indices == self.indices@
        &&& out.refs == views(self.refs@)
        &&& out.longest >= 0
        &&& self.longest == (if out.longest > u32::MAX {
            u32::MAX + 1
        } else {
            out.longest
        })
    }
}

/// Moves the items of `more` behind those of `list`.
fn append_frames(list: &mut Vec<XfbinChunk>, more: Vec<XfbinChunk>)
    ensures
        views(final(list)@) == views(old(list)@) + views(more@),
{
    let mut more = more;
    let ghost start = views(list@);
    let ghost added = views(more@);
    list.append(&mut more);
    assert(views(list@) =~= start + added);
}

/// Moves the items of `more` behind those of `list`.
fn append_refs(list: &mut Vec<NuccStructReference>, more: Vec<NuccStructReference>)
    ensures
        views(final(list)@) == views(old(list)@) + views(more@),
{
    let mut more = more;
    let ghost start = views(list@);
    let ghost added = views(more@);
    list.append(&mut more);
    assert(views(list@) =~= start + added);
}

/// Moves the items of `more` behind those of `list`.
fn append_numbers(list: &mut Vec<u32>, more: Vec<u32>)
    ensures
        final(list)@ == old(list)@ + more@,
{
    let mut more = more;
    list.append(&mut more);
}

/// Adds a page to the lists of a file.
fn add_page(page: &XfbinPage, version: u16, grown: &mut FileGrowing, Ghost(out): Ghost<FileOut>) -> (r:
    Result<(), NuccError>)
    requires
        old(grown).holds(out),
    ensures
        r is Ok ==> spec_add_page(out, page@, version) is Ok && final(grown).holds(
            spec_add_page(out, page@, version)->Ok_0,
        ),
        r matches Err(e) ==> spec_add_page(out, page@, version) == Err::<FileOut, NuccError>(e),
{
    reveal(spec_add_page);
    let (frames, infos, refs) = match pack_page(page, version) {
        Ok(v) => v,
        Err(e) => { return Err(e); },
    };
    let numbers = match grown.infos.intern_all(&infos) {
        Ok(v) => v,
        Err(e) => { return Err(e); },
    };
    let size = frames_len(&frames);
    proof {
        lemma_frames_len_nonnegative(views(frames@));
    }
    if size > grown.longest {
        grown.longest = size;
    }
    append_frames(&mut grown.frames, frames);
    append_numbers(&mut grown.indices, numbers);
    append_refs(&mut grown.refs, refs);
    Ok(())
}

/// A run of frames takes no less than no bytes.
proof fn lemma_frames_len_nonnegative(frames: Seq<ChunkFrameView>)
    ensures
        spec_frames_len(frames) >= 0,
    decreases frames.len(),
{
    if frames.len() > 0 {
        lemma_frames_len_nonnegative(frames.drop_last());
    }
}

/// When the pages before the `k`-th can be written and the `k`-th cannot,
/// the run fails as the `k`-th does.
proof fn lemma_add_pages_err(pages: Seq<PageView>, upto: int, version: u16, k: int, e: NuccError)
    requires
        0 <= k < upto <= pages.len(),
        spec_add_pages(pages, k + 1, version) == Err::<FileOut, NuccError>(e),
    ensures
        spec_add_pages(pages, upto, version) == Err::<FileOut, NuccError>(e),
    decreases upto,
{
    if k + 1 < upto {
        lemma_add_pages_err(pages, upto - 1, version, k, e);
    }
}

/// Puts the lists of a file together from its pages.
fn pack_pages(pages: &Vec<XfbinPage>, version: u16) -> (r: Result<FileGrowing, NuccError>)
    ensures
        r matches Ok(grown) ==> spec_add_pages(views(pages@), pages.len() as int, version) is Ok
            && grown.holds(spec_add_pages(views(pages@), pages.len() as int, version)->Ok_0),
        r matches Err(e) ==> spec_add_pages(views(pages@), pages.len() as int, version) == Err::<
            FileOut,
            NuccError,
        >(e),
{
    let mut grown = FileGrowing {
        frames: Vec::new(),
        infos: Table::new(),
        indices: Vec::new(),
        refs: Vec::new(),
        longest: 0,
    };
    let ghost all = views(pages@);
    let mut k: usize = 0;
    proof {
        assert(views(grown.frames@) =~= seq![]);
        assert(views(grown.refs@) =~= seq![]);
        assert(grown.indices@ =~= seq![]);
    }
    while k < pages.len()
        invariant
            k <= pages.len(),
            all == views(pages@),
            spec_add_pages(all, k as int, version) is Ok,
            grown.holds(spec_add_pages(all, k as int, version)->Ok_0),
        decreases pages.len() - k,
    {
        let ghost out = spec_add_pages(all, k as int, version)->Ok_0;
        assert(all[k as int] == pages@[k as int]@);
        match add_page(&pages[k], version, &mut grown, Ghost(out)) {
            Ok(()) => {},
            Err(e) => {
                proof {
                    assert(spec_add_pages(all, k + 1, version) == Err::<FileOut, NuccError>(e));
                    lemma_add_pages_err(all, all.len() as int, version, k as int, e);
                }
                return Err(e);
            },
        }
        k += 1;
    }
    Ok(grown)
}

/// The names of a run of references.
fn ref_names(refs: &Vec<NuccStructReference>) -> (r: Vec<String>)
    ensures
        views(r@) == spec_ref_names(views(refs@)),
{
    let mut out: Vec<String> = Vec::new();
    let mut i: usize = 0;
    while i < refs.len()
        invariant
            i <= refs.len(),
            out.len() == i,
            forall|j: int| 0 <= j < i ==> (#[trigger] out@[j])@ == refs@[j]@.name,
        decreases refs.len() - i,
    {
        out.push(refs[i].0.clone());
        i += 1;
    }
    assert(views(out@) =~= spec_ref_names(views(refs@)));
    out
}

/// The identities that a run of references points at.
fn ref_targets(refs: &Vec<NuccStructReference>) -> (r: Vec<NuccStructInfo>)
    ensures
        views(r@) == spec_ref_targets(views(refs@)),
{
    let mut out: Vec<NuccStructInfo> = Vec::new();
    let mut i: usize = 0;
    while i < refs.len()
        invariant
            i <= refs.len(),
            out.len() == i,
            forall|j: int| 0 <= j < i ==> (#[trigger] out@[j])@ == refs@[j]@.target,
        decreases refs.len() - i,
    {
        out.push(refs[i].1.clone());
        i += 1;
    }
    assert(views(out@) =~= spec_ref_targets(views(refs@)));
    out
}

/// The type strings, the paths and the names of a run of identities.
fn info_texts(infos: &Vec<NuccStructInfo>) -> (r: (Vec<String>, Vec<String>, Vec<String>))
    ensures
        views(r.0@) == spec_info_types(views(infos@)),
        views(r.1@) == spec_info_paths(views(infos@)),
        views(r.2@) == spec_info_names(views(infos@)),
{
    let mut types: Vec<String> = Vec::new();
    let mut paths: Vec<String> = Vec::new();
    let mut names: Vec<String> = Vec::new();
    let mut i: usize = 0;
    while i < infos.len()
        invariant
            i <= infos.len(),
            types.len() == i,
            paths.len() == i,
            names.len() == i,
            forall|j: int| 0 <= j < i ==> (#[trigger] types@[j])@ == infos@[j]@.chunk_type,
            forall|j: int| 0 <= j < i ==> (#[trigger] paths@[j])@ == infos@[j]@.file_path,
            forall|j: int| 0 <= j < i ==> (#[trigger] names@[j])@ == infos@[j]@.chunk_name,
        decreases infos.len() - i,
    {
        types.push(infos[i].chunk_type.clone());
        paths.push(infos[i].file_path.clone());
        names.push(infos[i].chunk_name.clone());
        i += 1;
    }
    assert(views(types@) =~= spec_info_types(views(infos@)));
    assert(views(paths@) =~= spec_info_paths(views(infos@)));
    assert(views(names@) =~= spec_info_names(views(infos@)));
    (types, paths, names)
}

/// Pairs, the first of each from `first` and the second from `second`.
fn zip_pairs(first: &Vec<u32>, second: &Vec<u32>) -> (r: Vec<(u32, u32)>)
    requires
        first.len() == second.len(),
    ensures
        r@ == Seq::new(first@.len(), |i: int| (first@[i], second@[i])),
{
    let mut out: Vec<(u32, u32)> = Vec::new();
    let mut i: usize = 0;
    while i < first.len()
        invariant
            i <= first.len(),
            first.len() == second.len(),
            out@ == Seq::new(i as nat, |j: int| (first@[j], second@[j])),
        decreases first.len() - i,
    {
        out.push((first[i], second[i]));
        i += 1;
        assert(out@ =~= Seq::new(i as nat, |j: int| (first@[j], second@[j])));
    }
    out
}

/// Chunk map entries from the numbers of their three strings.
fn zip_maps(types: &Vec<u32>, paths: &Vec<u32>, names: &Vec<u32>) -> (r: Vec<XfbinChunkMap>)
    requires
        types.len() == paths.len(),
        types.len() == names.len(),
    ensures
        r@ == Seq::new(
            types@.len(),
            |i: int|
                XfbinChunkMap {
                    chunk_type_index: types@[i],
                    file_path_index: paths@[i],
                    chunk_name_index: names@[i],
                },
        ),
{
    let mut out: Vec<XfbinChunkMap> = Vec::new();
    let mut i: usize = 0;
    while i < types.len()
        invariant
            i <= types.len(),
            types.len() == paths.len(),
            types.len() == names.len(),
            out@ == Seq::new(
                i as nat,
                |j: int|
                    XfbinChunkMap {
                        chunk_type_index: types@[j],
                        file_path_index: paths@[j],
                        chunk_name_index: names@[j],
                    },
            ),
        decreases types.len() - i,
    {
        out.push(
            XfbinChunkMap {
                chunk_type_index: types[i],
                file_path_index: paths[i],
                chunk_name_index: names[i],
            },
        );
        i += 1;
        assert(out@ =~= Seq::new(
            i as nat,
            |j: int|
                XfbinChunkMap {
                    chunk_type_index: types@[j],
                    file_path_index: paths@[j],
                    chunk_name_index: names@[j],
                },
        ));
    }
    out
}

/// The pool that holds the strings of a table. A string that cannot be
/// written as code page 932 is a `StringDecode` error.
fn pool_of(table: Table<String>) -> (r: Result<XfbinDataBuffer, NuccError>)
    requires
        table.wf(),
    ensures
        spec_all_encodable(table@) ==> r is Ok && r->Ok_0@ == spec_pool(table@),
        !spec_all_encodable(table@) ==> r == Err::<XfbinDataBuffer, NuccError>(
            NuccError::StringDecode,
        ),
{
    proof {
        table.lemma_len();
    }
    let strings = table.into_items();
    XfbinDataBuffer::from_strings(strings)
}

/// Builds the index of a file from its lists.
fn build_index(
    infos: Table<NuccStructInfo>,
    indices: Vec<u32>,
    refs: &Vec<NuccStructReference>,
    longest: u64,
    version: u16,
    Ghost(out): Ghost<FileOut>,
) -> (r: Result<XfbinIndex, NuccError>)
    requires
        infos.wf(),
        out.infos == infos@,
        out.indices == indices@,
        out.refs == views(refs@),
        out.longest >= 0,
        longest == (if out.longest > u32::MAX {
            u32::MAX + 1
        } else {
            out.longest
        }),
    ensures
        r matches Ok(index) ==> spec_index_of(out, version) == Ok::<IndexView, NuccError>(index@),
        r matches Err(e) ==> spec_index_of(out, version) == Err::<IndexView, NuccError>(e),
{
    reveal(spec_index_of);
    let mut infos = infos;
    let ghost empty = Seq::<Seq<char>>::empty();
    let ghost all_infos = spec_intern_all(out.infos, spec_ref_targets(out.refs));
    let ghost names1 = spec_intern_all(empty, spec_ref_names(out.refs));
    proof {
        lemma_intern_all_len(empty, spec_info_types(all_infos));
        lemma_intern_all_len(empty, spec_info_paths(all_infos));
        lemma_intern_all_grows(names1, spec_info_names(all_infos));
    }
    if longest > 0xffff_ffff {
        return Err(NuccError::CountMismatch);
    }
    let names_of_refs = ref_names(refs);
    let targets = ref_targets(refs);
    let mut names: Table<String> = Table::new();
    let name_numbers = match names.intern_all(&names_of_refs) {
        Ok(v) => v,
        Err(e) => { return Err(e); },
    };
    let info_numbers = match infos.intern_all(&targets) {
        Ok(v) => v,
        Err(e) => { return Err(e); },
    };
    let (type_texts, path_texts, name_texts) = info_texts(infos.items());
    let mut types: Table<String> = Table::new();
    let mut paths: Table<String> = Table::new();
    proof {
        infos.lemma_len();
    }
    let type_indices = match types.intern_all(&type_texts) {
        Ok(v) => v,
        Err(e) => { return Err(e); },
    };
    let path_indices = match paths.intern_all(&path_texts) {
        Ok(v) => v,
        Err(e) => { return Err(e); },
    };
    let name_indices = match names.intern_all(&name_texts) {
        Ok(v) => v,
        Err(e) => { return Err(e); },
    };
    proof {
        names.lemma_len();
    }
    let chunk_maps = zip_maps(&type_indices, &path_indices, &name_indices);
    let chunk_references = zip_pairs(&name_numbers, &info_numbers);
    let chunk_types = match pool_of(types) {
        Ok(pool) => pool,
        Err(e) => { return Err(e); },
    };
    let file_paths = match pool_of(paths) {
        Ok(pool) => pool,
        Err(e) => { return Err(e); },
    };
    let chunk_names = match pool_of(names) {
        Ok(pool) => pool,
        Err(e) => { return Err(e); },
    };
    Ok(
        XfbinIndex {
            min_page_size: longest as u32,
            version,
            unknown: 0,
            chunk_types,
            file_paths,
            chunk_names,
            chunk_maps,
            chunk_references,
            chunk_map_indices: indices,
        },
    )
}

impl XfbinFile {
    /// The container that a document is written as.
    pub fn from_xfbin(xfbin: &Xfbin) -> (r: Result<XfbinFile, NuccError>)
        ensures
            r matches Ok(file) ==> spec_xfbin_file(xfbin@) == Ok::<FileView, NuccError>(file@),
            r matches Err(e) ==> spec_xfbin_file(xfbin@) == Err::<FileView, NuccError>(e),
    {
        let grown = match pack_pages(&xfbin.pages, xfbin.version) {
            Ok(g) => g,
            Err(e) => { return Err(e); },
        };
        let ghost out = spec_add_pages(xfbin@.pages, xfbin@.pages.len() as int, xfbin.version)->Ok_0;
        let FileGrowing { frames, infos, indices, refs, longest } = grown;
        let index = match build_index(infos, indices, &refs, longest, xfbin.version, Ghost(out)) {
            Ok(i) => i,
            Err(e) => { return Err(e); },
        };
        Ok(
            XfbinFile {
                header: XfbinHeader { version: xfbin.version, encrypted: false },
                index,
                chunks: frames,
            },
        )
    }
}

} // verus!
