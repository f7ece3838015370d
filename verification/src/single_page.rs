//! What a file with a single page is read as, and what such a page is
//! written as.

use vstd::prelude::*;

use crate::error::NuccError;
use crate::nucc::nucc_binary::BinaryView;
use crate::nucc::nucc_unknown::UnknownView;
use crate::nucc::spec_struct_of;
use crate::nucc::spec_with_info;
use crate::nucc::AnyStructView;
use crate::nucc::StructInfoView;
use crate::nucc::StructReferenceView;
use crate::nucc::spec_info_of;
use crate::nucc_chunk::lemma_type_name_round_trip;
use crate::nucc_chunk::nucc_chunk_binary::spec_binary;
use crate::nucc_chunk::nucc_chunk_binary::spec_binary_bytes;
use crate::nucc_chunk::nucc_chunk_binary::ChunkBinaryView;
use crate::nucc_chunk::nucc_chunk_index::spec_index_info;
use crate::nucc_chunk::nucc_chunk_null::spec_null_info;
use crate::nucc_chunk::nucc_chunk_page::spec_page_bytes;
use crate::nucc_chunk::nucc_chunk_page::spec_page_info;
use crate::nucc_chunk::NuccChunkPage;
use crate::table::lemma_position;
use crate::table::spec_interned;
use crate::table::spec_number;
use crate::table::spec_position;
use crate::xfbin::spec_add_struct;
use crate::xfbin::spec_add_structs;
use crate::xfbin::spec_has_unknown;
use crate::xfbin::spec_page_frames;
use crate::xfbin::spec_reserved;
use crate::xfbin::PageOut;
use crate::nucc_chunk::nucc_chunk_page::spec_page;
use crate::nucc_chunk::spec_read_struct;
use crate::nucc_chunk::spec_type_of_name;
use crate::nucc_chunk::NuccChunkType;
use crate::xfbin::spec_closed_page;
use crate::xfbin::spec_pages;
use crate::xfbin::PageView;
use crate::xfbin_file::ChunkFrameView;

verus! {

/// Whether a frame is a null frame: it points at an identity whose type
/// string names the null chunk.
pub open spec fn spec_is_null_frame(frame: ChunkFrameView, mapped: Seq<StructInfoView>) -> bool {
    frame.chunk_map_index < mapped.len() && spec_type_of_name(
        mapped[frame.chunk_map_index as int].chunk_type,
    ) == NuccChunkType::NuccChunkNull
}

/// Whether a frame closes a page that began with the first identity and
/// the first reference: it points at an identity whose type string names
/// the page chunk, and its payload counts no more identities and
/// references than there are.
pub open spec fn spec_is_page_frame(
    frame: ChunkFrameView,
    mapped: Seq<StructInfoView>,
    refs: Seq<StructReferenceView>,
) -> bool {
    &&& frame.chunk_map_index < mapped.len()
    &&& spec_type_of_name(mapped[frame.chunk_map_index as int].chunk_type)
        == NuccChunkType::NuccChunkPage
    &&& spec_page(frame.chunk_buffer, frame.version) is Ok
    &&& spec_page(frame.chunk_buffer, frame.version)->Ok_0.map_index_count <= mapped.len()
    &&& spec_page(frame.chunk_buffer, frame.version)->Ok_0.reference_count <= refs.len()
}

/// The page that a page frame closes, with the chunks `structs`.
pub open spec fn spec_page_closed_by(
    frame: ChunkFrameView,
    mapped: Seq<StructInfoView>,
    refs: Seq<StructReferenceView>,
    structs: Seq<AnyStructView>,
) -> PageView {
    let page = spec_page(frame.chunk_buffer, frame.version)->Ok_0;
    PageView {
        structs,
        struct_infos: mapped.subrange(0, page.map_index_count as int),
        struct_references: refs.subrange(0, page.reference_count as int),
    }
}

/// A null frame followed by a page frame is read as one page without
/// chunks, which holds the identities and references that the page frame
/// counts.
pub proof fn lemma_empty_page_is_read(
    frames: Seq<ChunkFrameView>,
    mapped: Seq<StructInfoView>,
    refs: Seq<StructReferenceView>,
)
    requires
        frames.len() == 2,
        spec_is_null_frame(frames[0], mapped),
        spec_is_page_frame(frames[1], mapped, refs),
    ensures
        spec_pages(
            frames,
            0,
            mapped,
            refs,
            0,
            0,
            Seq::<AnyStructView>::empty(),
            Seq::<PageView>::empty(),
        ) == Ok::<Seq<PageView>, NuccError>(
            seq![spec_page_closed_by(frames[1], mapped, refs, Seq::<AnyStructView>::empty())],
        ),
{
    let none = Seq::<AnyStructView>::empty();
    let start = Seq::<PageView>::empty();
    let page = spec_page(frames[1].chunk_buffer, frames[1].version)->Ok_0;
    let closed = spec_page_closed_by(frames[1], mapped, refs, none);
    assert(spec_closed_page(
        none,
        mapped,
        refs,
        0,
        0,
        page.map_index_count as int,
        page.reference_count as int,
    ) == closed);
    assert(start.push(closed) =~= seq![closed]);
    assert(spec_pages(
        frames,
        2,
        mapped,
        refs,
        page.map_index_count as int,
        page.reference_count as int,
        none,
        seq![closed],
    ) == Ok::<Seq<PageView>, NuccError>(seq![closed]));
    assert(spec_pages(frames, 1, mapped, refs, 0, 0, none, start) == Ok::<
        Seq<PageView>,
        NuccError,
    >(seq![closed]));
}

/// A null frame, the frame of one chunk and a page frame are read as one
/// page with that chunk under the identity that its frame points at.
pub proof fn lemma_single_chunk_page_is_read(
    frames: Seq<ChunkFrameView>,
    mapped: Seq<StructInfoView>,
    refs: Seq<StructReferenceView>,
)
    requires
        frames.len() == 3,
        spec_is_null_frame(frames[0], mapped),
        spec_is_page_frame(frames[2], mapped, refs),
        frames[1].chunk_map_index < mapped.len(),
        spec_read_struct(
            frames[1].chunk_buffer,
            mapped[frames[1].chunk_map_index as int].chunk_type,
            frames[1].version,
        ) is Ok,
        spec_struct_of(
            spec_read_struct(
                frames[1].chunk_buffer,
                mapped[frames[1].chunk_map_index as int].chunk_type,
                frames[1].version,
            )->Ok_0,
            mapped,
            refs,
        ) is Ok,
    ensures
        spec_pages(
            frames,
            0,
            mapped,
            refs,
            0,
            0,
            Seq::<AnyStructView>::empty(),
            Seq::<PageView>::empty(),
        ) == Ok::<Seq<PageView>, NuccError>(
            seq![
                spec_page_closed_by(
                    frames[2],
                    mapped,
                    refs,
                    seq![
                        spec_with_info(
                            spec_struct_of(
                                spec_read_struct(
                                    frames[1].chunk_buffer,
                                    mapped[frames[1].chunk_map_index as int].chunk_type,
                                    frames[1].version,
                                )->Ok_0,
                                mapped,
                                refs,
                            )->Ok_0,
                            mapped[frames[1].chunk_map_index as int],
                        ),
                    ],
                ),
            ],
        ),
{
    let none = Seq::<AnyStructView>::empty();
    let start = Seq::<PageView>::empty();
    let info = mapped[frames[1].chunk_map_index as int];
    let chunk = spec_read_struct(frames[1].chunk_buffer, info.chunk_type, frames[1].version)->Ok_0;
    let s = spec_with_info(spec_struct_of(chunk, mapped, refs)->Ok_0, info);
    let page = spec_page(frames[2].chunk_buffer, frames[2].version)->Ok_0;
    let closed = spec_page_closed_by(frames[2], mapped, refs, seq![s]);
    assert(mapped.subrange(0, mapped.len() as int) =~= mapped);
    assert(refs.subrange(0, refs.len() as int) =~= refs);
    assert(none.push(s) =~= seq![s]);
    assert(spec_closed_page(
        seq![s],
        mapped,
        refs,
        0,
        0,
        page.map_index_count as int,
        page.reference_count as int,
    ) == closed);
    assert(start.push(closed) =~= seq![closed]);
    assert(spec_pages(
        frames,
        3,
        mapped,
        refs,
        page.map_index_count as int,
        page.reference_count as int,
        none,
        seq![closed],
    ) == Ok::<Seq<PageView>, NuccError>(seq![closed]));
    assert(spec_pages(frames, 2, mapped, refs, 0, 0, seq![s], start) == Ok::<
        Seq<PageView>,
        NuccError,
    >(seq![closed]));
    assert(spec_pages(frames, 1, mapped, refs, 0, 0, none, start) == Ok::<
        Seq<PageView>,
        NuccError,
    >(seq![closed]));
}

/// A page with one frame whose identity names the binary chunk holds that
/// chunk with the data of its payload.
pub proof fn lemma_single_binary_chunk_is_read(
    frames: Seq<ChunkFrameView>,
    mapped: Seq<StructInfoView>,
    refs: Seq<StructReferenceView>,
)
    requires
        frames.len() == 3,
        spec_is_null_frame(frames[0], mapped),
        spec_is_page_frame(frames[2], mapped, refs),
        frames[1].chunk_map_index < mapped.len(),
        spec_type_of_name(mapped[frames[1].chunk_map_index as int].chunk_type)
            == NuccChunkType::NuccChunkBinary,
        spec_binary(frames[1].chunk_buffer, frames[1].version) is Ok,
    ensures
        spec_pages(
            frames,
            0,
            mapped,
            refs,
            0,
            0,
            Seq::<AnyStructView>::empty(),
            Seq::<PageView>::empty(),
        ) == Ok::<Seq<PageView>, NuccError>(
            seq![
                spec_page_closed_by(
                    frames[2],
                    mapped,
                    refs,
                    seq![
                        AnyStructView::Binary(
                            BinaryView {
                                struct_info: mapped[frames[1].chunk_map_index as int],
                                version: spec_binary(
                                    frames[1].chunk_buffer,
                                    frames[1].version,
                                )->Ok_0.version,
                                data: spec_binary(
                                    frames[1].chunk_buffer,
                                    frames[1].version,
                                )->Ok_0.data,
                            },
                        ),
                    ],
                ),
            ],
        ),
{
    lemma_single_chunk_page_is_read(frames, mapped, refs);
}

/// A page with one frame whose identity names none of the known types
/// holds a chunk of unknown type with the payload as it is, under the type
/// string of the identity; the payload is not looked into.
pub proof fn lemma_single_unknown_chunk_is_read(
    frames: Seq<ChunkFrameView>,
    mapped: Seq<StructInfoView>,
    refs: Seq<StructReferenceView>,
)
    requires
        frames.len() == 3,
        spec_is_null_frame(frames[0], mapped),
        spec_is_page_frame(frames[2], mapped, refs),
        frames[1].chunk_map_index < mapped.len(),
        spec_type_of_name(mapped[frames[1].chunk_map_index as int].chunk_type)
            == NuccChunkType::NuccChunkUnknown,
    ensures
        spec_pages(
            frames,
            0,
            mapped,
            refs,
            0,
            0,
            Seq::<AnyStructView>::empty(),
            Seq::<PageView>::empty(),
        ) == Ok::<Seq<PageView>, NuccError>(
            seq![
                spec_page_closed_by(
                    frames[2],
                    mapped,
                    refs,
                    seq![
                        AnyStructView::Unknown(
                            UnknownView {
                                struct_info: mapped[frames[1].chunk_map_index as int],
                                version: frames[1].version,
                                data: frames[1].chunk_buffer,
                                chunk_type: mapped[frames[1].chunk_map_index as int].chunk_type,
                            },
                        ),
                    ],
                ),
            ],
        ),
{
    lemma_single_chunk_page_is_read(frames, mapped, refs);
}

/// The identities of the null chunk, of the page chunk and of the index,
/// in this order.
pub open spec fn spec_three() -> Seq<StructInfoView> {
    seq![spec_null_info(), spec_page_info(), spec_index_info()]
}

/// A frame without a payload.
pub open spec fn spec_null_frame(at: int, version: u16) -> ChunkFrameView {
    ChunkFrameView { chunk_map_index: at as u32, version, chunk_buffer: seq![] }
}

/// The frame of a page chunk that counts `infos` identities and `refs`
/// references.
pub open spec fn spec_page_frame(at: int, version: u16, infos: int, refs: int) -> ChunkFrameView {
    ChunkFrameView {
        chunk_map_index: at as u32,
        version,
        chunk_buffer: spec_page_bytes(
            NuccChunkPage { version, map_index_count: infos as u32, reference_count: refs as u32 },
        ),
    }
}

/// Entered in an empty table, the identities of the null chunk, of the
/// page chunk and of the index get the numbers 0, 1 and 2; an identity whose
/// type string names another kind is none of them.
pub proof fn lemma_three()
    ensures
        spec_reserved(Seq::<StructInfoView>::empty()) == spec_three(),
        spec_number(Seq::<StructInfoView>::empty(), spec_null_info()) == 0,
        spec_number(spec_three(), spec_page_info()) == 1,
        forall|info: StructInfoView|
            spec_type_of_name(#[trigger] info.chunk_type) == NuccChunkType::NuccChunkBinary
                || spec_type_of_name(info.chunk_type) == NuccChunkType::NuccChunkAnm
                || spec_type_of_name(info.chunk_type) == NuccChunkType::NuccChunkUnknown
                ==> spec_position(spec_three(), info) is None,
{
    lemma_type_name_round_trip(NuccChunkType::NuccChunkNull);
    lemma_type_name_round_trip(NuccChunkType::NuccChunkPage);
    lemma_type_name_round_trip(NuccChunkType::NuccChunkIndex);
    let none = Seq::<StructInfoView>::empty();
    let one = seq![spec_null_info()];
    let two = seq![spec_null_info(), spec_page_info()];
    let three = spec_three();
    lemma_position(none, spec_null_info());
    assert(spec_interned(none, spec_null_info()) =~= one);
    lemma_position(one, spec_page_info());
    assert(spec_position(one, spec_page_info()) is None);
    assert(spec_interned(one, spec_page_info()) =~= two);
    lemma_position(two, spec_index_info());
    assert(spec_position(two, spec_index_info()) is None);
    assert(spec_interned(two, spec_index_info()) =~= three);
    lemma_position(three, spec_page_info());
    assert(three[1] == spec_page_info());
    assert forall|info: StructInfoView|
        spec_type_of_name(#[trigger] info.chunk_type) == NuccChunkType::NuccChunkBinary
            || spec_type_of_name(info.chunk_type) == NuccChunkType::NuccChunkAnm
            || spec_type_of_name(info.chunk_type) == NuccChunkType::NuccChunkUnknown
            implies spec_position(three, info) is None by {
        lemma_position(three, info);
    }
}

/// A page without chunks is written as a null frame and the frame of a
/// page chunk that counts three identities and no reference.
pub proof fn lemma_empty_page_is_written(page: PageView, version: u16)
    requires
        page.structs.len() == 0,
    ensures
        spec_page_frames(page, version) == Ok::<PageOut, NuccError>(
            PageOut {
                frames: seq![spec_null_frame(0, version), spec_page_frame(1, version, 3, 0)],
                infos: spec_three(),
                refs: seq![],
            },
        ),
{
    reveal(spec_page_frames);
    lemma_three();
    assert(!spec_has_unknown(page.structs));
    let written = spec_page_frames(page, version);
    assert(written is Ok);
    assert(written->Ok_0.frames =~= seq![
        spec_null_frame(0, version),
        spec_page_frame(1, version, 3, 0),
    ]);
    assert(written->Ok_0.refs =~= Seq::<StructReferenceView>::empty());
}

/// A page with one binary chunk, whose identity names the binary chunk,
/// is written as a null frame, the frame of the chunk with its length and
/// its data, and the frame of a page chunk that counts four identities: the
/// identities of the null chunk, of the page chunk and of the index come
/// before that of the chunk.
pub proof fn lemma_single_binary_page_is_written(page: PageView, version: u16, binary: BinaryView)
    requires
        page.structs == seq![AnyStructView::Binary(binary)],
        spec_type_of_name(binary.struct_info.chunk_type) == NuccChunkType::NuccChunkBinary,
        binary.data.len() <= u32::MAX,
    ensures
        spec_page_frames(page, version) == Ok::<PageOut, NuccError>(
            PageOut {
                frames: seq![
                    spec_null_frame(0, version),
                    ChunkFrameView {
                        chunk_map_index: 3,
                        version: binary.version,
                        chunk_buffer: spec_binary_bytes(
                            ChunkBinaryView { version: binary.version, data: binary.data },
                        )->Ok_0,
                    },
                    spec_page_frame(1, version, 4, 0),
                ],
                infos: spec_three().push(binary.struct_info),
                refs: seq![],
            },
        ),
{
    reveal(spec_page_frames);
    reveal(spec_add_struct);
    lemma_three();
    let s = AnyStructView::Binary(binary);
    assert(page.structs[0] == s);
    assert(!spec_has_unknown(page.structs)) by {
        if spec_has_unknown(page.structs) {
            let i = choose|i: int| 0 <= i < page.structs.len() && (#[trigger] page.structs[i]) is Unknown;
            assert(page.structs[i] == s);
        }
    }
    let none = Seq::<StructReferenceView>::empty();
    let first = PageOut { frames: seq![spec_null_frame(0, version)], infos: spec_three(), refs: none };
    let four = spec_three().push(binary.struct_info);
    assert(spec_info_of(s) == binary.struct_info);
    assert(spec_position(spec_three(), binary.struct_info) is None);
    assert(spec_interned(spec_three(), binary.struct_info) == four);
    assert(spec_add_structs(first, page.structs, 0) == Ok::<PageOut, NuccError>(first));
    let body = spec_add_structs(first, page.structs, 1);
    assert(body == spec_add_struct(first, s));
    assert(body is Ok);
    lemma_position(four, spec_page_info());
    assert(four[1] == spec_page_info());
    assert(four[0] == spec_null_info());
    assert(spec_number(four, spec_page_info()) == 1);
    let written = spec_page_frames(page, version);
    assert(written is Ok);
    assert(written->Ok_0.infos == four);
    assert(written->Ok_0.refs =~= none);
    assert(written->Ok_0.frames =~= seq![
        spec_null_frame(0, version),
        ChunkFrameView {
            chunk_map_index: 3,
            version: binary.version,
            chunk_buffer: spec_binary_bytes(
                ChunkBinaryView { version: binary.version, data: binary.data },
            )->Ok_0,
        },
        spec_page_frame(1, version, 4, 0),
    ]);
}

/// A page with one chunk of unknown type, whose tables hold the
/// identities of the null chunk, of the page chunk, of the index and of
/// the chunk, is written with these tables as they are: every frame points
/// at the place that its identity has in them, the frame of the chunk
/// holds the payload as it is, and the page chunk counts the tables.
pub proof fn lemma_single_unknown_page_is_written(page: PageView, version: u16, unknown: UnknownView)
    requires
        page.structs == seq![AnyStructView::Unknown(unknown)],
        page.struct_infos.len() <= u32::MAX,
        page.struct_references.len() <= u32::MAX,
        spec_position(page.struct_infos, spec_null_info()) is Some,
        spec_position(page.struct_infos, spec_page_info()) is Some,
        spec_position(page.struct_infos, spec_index_info()) is Some,
        spec_position(page.struct_infos, unknown.struct_info) is Some,
    ensures
        spec_page_frames(page, version) == Ok::<PageOut, NuccError>(
            PageOut {
                frames: seq![
                    spec_null_frame(
                        spec_position(page.struct_infos, spec_null_info())->Some_0,
                        version,
                    ),
                    ChunkFrameView {
                        chunk_map_index: spec_position(
                            page.struct_infos,
                            unknown.struct_info,
                        )->Some_0 as u32,
                        version: unknown.version,
                        chunk_buffer: unknown.data,
                    },
                    spec_page_frame(
                        spec_position(page.struct_infos, spec_page_info())->Some_0,
                        version,
                        page.struct_infos.len() as int,
                        page.struct_references.len() as int,
                    ),
                ],
                infos: page.struct_infos,
                refs: page.struct_references,
            },
        ),
{
    reveal(spec_page_frames);
    reveal(spec_add_struct);
    let s = AnyStructView::Unknown(unknown);
    assert(page.structs[0] == s);
    assert(spec_has_unknown(page.structs));
    let infos = page.struct_infos;
    assert(spec_reserved(infos) == infos);
    let first = PageOut {
        frames: seq![
            spec_null_frame(spec_position(infos, spec_null_info())->Some_0, version),
        ],
        infos,
        refs: page.struct_references,
    };
    assert(spec_info_of(s) == unknown.struct_info);
    assert(spec_interned(infos, unknown.struct_info) == infos);
    assert(spec_add_structs(first, page.structs, 0) == Ok::<PageOut, NuccError>(first));
    let body = spec_add_structs(first, page.structs, 1);
    assert(body == spec_add_struct(first, s));
    assert(body is Ok);
    let written = spec_page_frames(page, version);
    assert(written is Ok);
    assert(written->Ok_0.frames =~= seq![
        spec_null_frame(spec_position(infos, spec_null_info())->Some_0, version),
        ChunkFrameView {
            chunk_map_index: spec_position(infos, unknown.struct_info)->Some_0 as u32,
            version: unknown.version,
            chunk_buffer: unknown.data,
        },
        spec_page_frame(
            spec_position(infos, spec_page_info())->Some_0,
            version,
            infos.len() as int,
            page.struct_references.len() as int,
        ),
    ]);
}

} // verus!
