//! That a document which is written is read back as it was.

use vstd::prelude::*;

use crate::error::NuccError;
use crate::lemma_read_of_written;
use crate::nucc::AnyStructView;
use crate::nucc::StructInfoView;
use crate::nucc::StructReferenceView;
use crate::nucc::nucc_anm::AnmView;
use crate::nucc::nucc_anm::pack::lemma_anm_chunk_sized;
use crate::nucc::nucc_anm::reread::lemma_anm_read_of_written;
use crate::nucc::nucc_anm::reread::lemma_read_is_as_read;
use crate::nucc::nucc_anm::reread::lemma_written_lists;
use crate::nucc::nucc_anm::reread::spec_as_read;
use crate::nucc::nucc_anm::reread::spec_settled_anm;
use crate::nucc::spec_chunk_of;
use crate::nucc::spec_info_of;
use crate::nucc::spec_struct_infos;
use crate::nucc::spec_struct_of;
use crate::nucc::spec_struct_references;
use crate::nucc::spec_struct_version;
use crate::nucc::spec_with_info;
use crate::nucc_chunk::AnyChunkView;
use crate::nucc_chunk::NuccChunkPage;
use crate::nucc_chunk::NuccChunkType;
use crate::nucc_chunk::lemma_struct_round_trip;
use crate::nucc_chunk::lemma_type_name_round_trip;
use crate::nucc_chunk::nucc_chunk_index::spec_index_info;
use crate::nucc_chunk::nucc_chunk_null::spec_null_info;
use crate::nucc_chunk::nucc_chunk_page::spec_page;
use crate::nucc_chunk::nucc_chunk_page::spec_page_info;
use crate::nucc_chunk::spec_read_struct;
use crate::nucc_chunk::spec_type_of_name;
use crate::nucc_chunk::spec_write_struct;
use crate::spec_read_xfbin;
use crate::spec_write_xfbin;
use crate::table::lemma_intern_all_grows;
use crate::table::lemma_interned;
use crate::table::lemma_numbers_in_range;
use crate::table::lemma_position;
use crate::table::spec_interned;
use crate::table::spec_is_prefix;
use crate::table::spec_number;
use crate::table::spec_numbers;
use crate::utils::cp932_encoded;
use crate::utils::decode_text;
use crate::utils::encode_text;
use crate::utils::lemma_nul_from;
use crate::utils::nul_from;
use crate::utils::spec_encodable;
use crate::utils::spec_text;
use crate::xfbin::FileOut;
use crate::xfbin::PageOut;
use crate::xfbin::PageView;
use crate::xfbin::XfbinView;
use crate::xfbin::lemma_add_struct_tables;
use crate::xfbin::lemma_add_structs_tables;
use crate::xfbin::lemma_page_counts;
use crate::xfbin::lemma_written_file;
use crate::xfbin::lemma_written_index;
use crate::xfbin::spec_add_page;
use crate::xfbin::spec_add_pages;
use crate::xfbin::spec_add_struct;
use crate::xfbin::spec_add_structs;
use crate::xfbin::spec_closed_page;
use crate::xfbin::spec_file_in_order;
use crate::xfbin::spec_has_unknown;
use crate::xfbin::spec_index_of;
use crate::xfbin::spec_mapped;
use crate::xfbin::spec_page_frames;
use crate::xfbin::spec_page_start;
use crate::xfbin::spec_pages;
use crate::xfbin::spec_pool;
use crate::xfbin::spec_ref_targets;
use crate::xfbin::spec_reserved;
use crate::xfbin::spec_written_infos;
use crate::xfbin::spec_written_names;
use crate::xfbin::spec_written_paths;
use crate::xfbin::spec_written_types;
use crate::xfbin::spec_xfbin;
use crate::xfbin::spec_xfbin_file;
use crate::xfbin_file::ChunkFrameView;
use crate::xfbin_file::FileView;
use crate::xfbin_file::spec_file;
use crate::xfbin_file::spec_pool_bytes;
use crate::xfbin_file::spec_pool_strings;
use crate::xfbin_file::spec_strings_from;

verus! {

/// Whether a text is read back from a pool as it was written: it can be
/// written as code page 932, the bytes hold no NUL, and read as code page
/// 932 they give the text again.
pub open spec fn spec_kept(text: Seq<char>) -> bool {
    &&& spec_encodable(text)
    &&& forall|i: int| 0 <= i < cp932_encoded(text).0.len() ==> cp932_encoded(text).0[i] != 0
    &&& spec_text(cp932_encoded(text).0) == Ok::<Seq<char>, NuccError>(text)
}

/// Tells whether a text is read back from a pool as it was written.
pub fn is_kept(text: &String) -> (r: bool)
    ensures
        r == spec_kept(text@),
{
    let bytes = match encode_text(text) {
        Ok(bytes) => bytes,
        Err(_) => { return false; },
    };
    let mut i: usize = 0;
    while i < bytes.len()
        invariant
            i <= bytes.len(),
            spec_encodable(text@),
            bytes@ == cp932_encoded(text@).0,
            forall|j: int| 0 <= j < i ==> bytes@[j] != 0,
        decreases bytes.len() - i,
    {
        if bytes[i] == 0 {
            return false;
        }
        i += 1;
    }
    match decode_text(&bytes) {
        Ok(read) => read == *text,
        Err(_) => false,
    }
}

/// Whether each of `texts` is read back from a pool as it was written.
pub open spec fn spec_all_kept(texts: Seq<Seq<char>>) -> bool {
    forall|i: int| 0 <= i < texts.len() ==> spec_kept(#[trigger] texts[i])
}

/// The bytes of a pool that holds two runs of strings are the bytes of
/// the first and then the bytes of the second.
pub proof fn lemma_pool_bytes_concat(a: Seq<Seq<char>>, b: Seq<Seq<char>>)
    ensures
        spec_pool_bytes(a + b) == spec_pool_bytes(a) + spec_pool_bytes(b),
    decreases b.len(),
{
    if b.len() == 0 {
        assert(a + b =~= a);
        assert(spec_pool_bytes(a) + spec_pool_bytes(b) =~= spec_pool_bytes(a));
    } else {
        lemma_pool_bytes_concat(a, b.drop_last());
        assert((a + b).drop_last() =~= a + b.drop_last());
        assert((a + b).last() == b.last());
        assert(spec_pool_bytes(a) + spec_pool_bytes(b.drop_last()) + cp932_encoded(b.last()).0.push(
            0u8,
        ) =~= spec_pool_bytes(a) + (spec_pool_bytes(b.drop_last()) + cp932_encoded(b.last()).0.push(
            0u8,
        )));
    }
}

/// Strings that are kept are read back from the bytes of their pool,
/// wherever in a buffer these end.
pub proof fn lemma_pool_from(front: Seq<u8>, texts: Seq<Seq<char>>)
    requires
        spec_all_kept(texts),
    ensures
        spec_strings_from(front + spec_pool_bytes(texts), front.len() as int) == Ok::<
            Seq<Seq<char>>,
            NuccError,
        >(texts),
    decreases texts.len(),
{
    let data = front + spec_pool_bytes(texts);
    let at = front.len() as int;
    if texts.len() == 0 {
        assert(data =~= front);
        assert(texts =~= Seq::<Seq<char>>::empty());
    } else {
        let first = texts[0];
        let rest = texts.subrange(1, texts.len() as int);
        let own = cp932_encoded(first).0;
        assert(texts =~= seq![first] + rest);
        lemma_pool_bytes_concat(seq![first], rest);
        assert(seq![first].drop_last() =~= Seq::<Seq<char>>::empty());
        assert(spec_pool_bytes(seq![first].drop_last()) =~= Seq::<u8>::empty());
        assert(spec_pool_bytes(seq![first]) =~= own.push(0u8));
        let next = front + own.push(0u8);
        assert(data =~= next + spec_pool_bytes(rest));
        assert(spec_kept(texts[0]));
        assert forall|i: int| 0 <= i < rest.len() implies spec_kept(#[trigger] rest[i]) by {
            assert(rest[i] == texts[i + 1]);
        }
        lemma_pool_from(next, rest);
        lemma_nul_from(data, at);
        let end = nul_from(data, at);
        assert(data[at + own.len()] == 0);
        assert forall|i: int| at <= i < at + own.len() implies data[i] != 0 by {
            assert(data[i] == own[i - at]);
        }
        if end < at + own.len() {
            assert(data[end] == 0);
        }
        assert(end == at + own.len());
        assert(data.subrange(at, end) =~= own);
        assert(end + 1 == next.len());
        assert(spec_text(data.subrange(at, end)) == Ok::<Seq<char>, NuccError>(first));
        assert(spec_strings_from(data, end + 1) == Ok::<Seq<Seq<char>>, NuccError>(rest));
        assert(at < data.len() && end < data.len());
    }
}

/// A pool of strings that are kept is read back as it was written.
pub proof fn lemma_pool_round_trip(texts: Seq<Seq<char>>)
    requires
        spec_all_kept(texts),
        texts.len() <= u32::MAX,
    ensures
        spec_pool_strings(spec_pool(texts)) == Ok::<Seq<Seq<char>>, NuccError>(texts),
{
    lemma_pool_from(Seq::<u8>::empty(), texts);
    assert(Seq::<u8>::empty() + spec_pool_bytes(texts) =~= spec_pool_bytes(texts));
}

/// The identities that the map indices of a file in the making point at.
pub open spec fn spec_file_mapped(out: FileOut) -> Seq<StructInfoView> {
    Seq::new(out.indices.len(), |j: int| spec_written_infos(out)[out.indices[j] as int])
}

/// The index of a written file whose strings are kept is read back: its
/// pools give the strings of the file, its chunk map the identities of the
/// file, its pairs the references, and its map indices the identities
/// that they point at.
pub proof fn lemma_index_reread(out: FileOut, version: u16)
    requires
        spec_file_in_order(out),
        spec_index_of(out, version) is Ok,
        spec_all_kept(spec_written_types(out)),
        spec_all_kept(spec_written_paths(out)),
        spec_all_kept(spec_written_names(out)),
    ensures
        ({
            let index = spec_index_of(out, version)->Ok_0;
            let names = spec_written_names(out);
            let paths = spec_written_paths(out);
            let types = spec_written_types(out);
            let infos = spec_written_infos(out);
            &&& spec_pool_strings(index.chunk_names) == Ok::<Seq<Seq<char>>, NuccError>(names)
            &&& spec_pool_strings(index.file_paths) == Ok::<Seq<Seq<char>>, NuccError>(paths)
            &&& spec_pool_strings(index.chunk_types) == Ok::<Seq<Seq<char>>, NuccError>(types)
            &&& spec_struct_infos(index.chunk_maps, names, paths, types) == Ok::<
                Seq<StructInfoView>,
                NuccError,
            >(infos)
            &&& spec_struct_references(index.chunk_references, names, infos) == Ok::<
                Seq<StructReferenceView>,
                NuccError,
            >(out.refs)
            &&& spec_mapped(index.chunk_map_indices, infos) == Ok::<
                Seq<StructInfoView>,
                NuccError,
            >(spec_file_mapped(out))
        }),
{
    lemma_written_index(out, version);
    let index = spec_index_of(out, version)->Ok_0;
    let names = spec_written_names(out);
    let paths = spec_written_paths(out);
    let types = spec_written_types(out);
    let infos = spec_written_infos(out);
    lemma_pool_round_trip(names);
    lemma_pool_round_trip(paths);
    lemma_pool_round_trip(types);
    let read_infos = spec_struct_infos(index.chunk_maps, names, paths, types);
    assert(read_infos is Ok);
    assert(read_infos->Ok_0 =~= infos);
    let read_refs = spec_struct_references(index.chunk_references, names, infos);
    assert(read_refs is Ok);
    assert(read_refs->Ok_0 =~= out.refs);
    let mapped = spec_mapped(index.chunk_map_indices, infos);
    assert(mapped is Ok);
    assert(mapped->Ok_0 =~= spec_file_mapped(out));
}

/// Whether a logical chunk is one that is read back as what it is: its
/// identity bears the type string of its kind, an animation is laid out as
/// one that was read, and a chunk of a type that is not known bears, as
/// its own type string and in its identity, one that names none of the
/// known types.
pub open spec fn spec_regular(s: AnyStructView) -> bool {
    match s {
        AnyStructView::Anm(anm) => spec_type_of_name(anm.struct_info.chunk_type)
            == NuccChunkType::NuccChunkAnm && spec_as_read(anm.clumps),
        AnyStructView::Binary(binary) => spec_type_of_name(binary.struct_info.chunk_type)
            == NuccChunkType::NuccChunkBinary,
        AnyStructView::Unknown(unknown) => unknown.chunk_type == unknown.struct_info.chunk_type
            && spec_type_of_name(unknown.chunk_type) == NuccChunkType::NuccChunkUnknown,
    }
}

/// A logical chunk as it is read back: an animation with the curves of
/// every entry settled, every other chunk as it is.
pub open spec fn spec_settled_struct(s: AnyStructView) -> AnyStructView {
    match s {
        AnyStructView::Anm(anm) => AnyStructView::Anm(
            AnmView { struct_info: anm.struct_info, ..spec_settled_anm(anm) },
        ),
        _ => s,
    }
}

/// A logical chunk that is written is read back from its payload, under
/// the type string of its identity and its version, as the wire chunk that
/// it was written as; and that wire chunk stands for the logical chunk
/// again, settled, in every pair of tables that begin with the tables of
/// the page as the chunk left them.
pub proof fn lemma_struct_reread(
    s: AnyStructView,
    infos0: Seq<StructInfoView>,
    refs0: Seq<StructReferenceView>,
    infos: Seq<StructInfoView>,
    refs: Seq<StructReferenceView>,
)
    requires
        spec_regular(s),
        spec_chunk_of(s, infos0, refs0) is Ok,
        spec_write_struct(spec_chunk_of(s, infos0, refs0)->Ok_0.0) is Ok,
        spec_is_prefix(spec_chunk_of(s, infos0, refs0)->Ok_0.1, infos),
        spec_is_prefix(spec_chunk_of(s, infos0, refs0)->Ok_0.2, refs),
    ensures
        spec_read_struct(
            spec_write_struct(spec_chunk_of(s, infos0, refs0)->Ok_0.0)->Ok_0,
            spec_info_of(s).chunk_type,
            spec_struct_version(s),
        ) == Ok::<AnyChunkView, NuccError>(spec_chunk_of(s, infos0, refs0)->Ok_0.0),
        !(spec_chunk_of(s, infos0, refs0)->Ok_0.0 is Null),
        !(spec_chunk_of(s, infos0, refs0)->Ok_0.0 is Page),
        !(spec_chunk_of(s, infos0, refs0)->Ok_0.0 is Index),
        spec_struct_of(spec_chunk_of(s, infos0, refs0)->Ok_0.0, infos, refs) is Ok,
        spec_with_info(
            spec_struct_of(spec_chunk_of(s, infos0, refs0)->Ok_0.0, infos, refs)->Ok_0,
            spec_info_of(s),
        ) == spec_settled_struct(s),
{
    let chunk = spec_chunk_of(s, infos0, refs0)->Ok_0.0;
    match s {
        AnyStructView::Anm(anm) => {
            lemma_anm_chunk_sized(anm, infos0, refs0);
            lemma_written_lists(anm, infos0, refs0);
            lemma_anm_read_of_written(anm, infos0, refs0, infos, refs);
        },
        _ => {},
    }
    lemma_struct_round_trip(chunk);
}

/// What a page holds when its null frame is written: that frame, the
/// tables that the page starts from, and in them the identities of the
/// null chunk, of the page chunk and of the index.
pub open spec fn spec_page_first(page: PageView, version: u16) -> PageOut {
    let start = spec_page_start(page);
    PageOut {
        frames: seq![
            ChunkFrameView {
                chunk_map_index: spec_number(start.0, spec_null_info()) as u32,
                version,
                chunk_buffer: seq![],
            },
        ],
        infos: spec_reserved(start.0),
        refs: start.1,
    }
}

/// What a page holds when the first `upto` of its chunks are written.
pub open spec fn spec_page_body(page: PageView, version: u16, upto: int) -> Result<
    PageOut,
    NuccError,
> {
    spec_add_structs(spec_page_first(page, version), page.structs, upto)
}

/// Logical chunks as they are read back.
pub open spec fn spec_settled_structs(structs: Seq<AnyStructView>) -> Seq<AnyStructView> {
    Seq::new(structs.len(), |i: int| spec_settled_struct(structs[i]))
}

/// A page as it is read back: its chunks settled, and the tables of the
/// page as they were written.
pub open spec fn spec_settled_page(page: PageView, version: u16) -> PageView {
    let done = spec_page_frames(page, version)->Ok_0;
    PageView {
        structs: spec_settled_structs(page.structs),
        struct_infos: done.infos,
        struct_references: done.refs,
    }
}

/// Whether each of the chunks is one that is read back as what it is.
pub open spec fn spec_all_regular(structs: Seq<AnyStructView>) -> bool {
    forall|i: int| 0 <= i < structs.len() ==> spec_regular(#[trigger] structs[i])
}

/// Whether what a page was written as lies in a file: its frames from the
/// `k`-th frame on, its identities from `info_at` on among the identities
/// that the map indices point at, and its references from `ref_at` on.
pub open spec fn spec_page_lies(
    done: PageOut,
    frames: Seq<ChunkFrameView>,
    mapped: Seq<StructInfoView>,
    refs: Seq<StructReferenceView>,
    k: int,
    info_at: int,
    ref_at: int,
) -> bool {
    &&& 0 <= k && k + done.frames.len() <= frames.len()
    &&& 0 <= info_at && info_at + done.infos.len() <= mapped.len()
    &&& 0 <= ref_at && ref_at + done.refs.len() <= refs.len()
    &&& forall|j: int| 0 <= j < done.frames.len() ==> frames[k + j] == #[trigger] done.frames[j]
    &&& forall|j: int| 0 <= j < done.infos.len() ==> mapped[info_at + j] == #[trigger] done.infos[j]
    &&& forall|j: int| 0 <= j < done.refs.len() ==> refs[ref_at + j] == #[trigger] done.refs[j]
}

/// What a page holds when some of its chunks are written opens what it
/// holds when more are.
pub proof fn lemma_add_structs_grow(out: PageOut, structs: Seq<AnyStructView>, from: int, upto: int)
    requires
        0 <= from <= upto <= structs.len(),
        spec_add_structs(out, structs, upto) is Ok,
        out.infos.len() <= u32::MAX,
        out.refs.len() <= u32::MAX,
    ensures
        spec_add_structs(out, structs, from) is Ok,
        spec_is_prefix(
            spec_add_structs(out, structs, from)->Ok_0.infos,
            spec_add_structs(out, structs, upto)->Ok_0.infos,
        ),
        spec_is_prefix(
            spec_add_structs(out, structs, from)->Ok_0.refs,
            spec_add_structs(out, structs, upto)->Ok_0.refs,
        ),
        spec_is_prefix(
            spec_add_structs(out, structs, from)->Ok_0.frames,
            spec_add_structs(out, structs, upto)->Ok_0.frames,
        ),
        spec_add_structs(out, structs, from)->Ok_0.frames.len() == out.frames.len() + from,
        spec_add_structs(out, structs, from)->Ok_0.infos.len() <= u32::MAX,
        spec_add_structs(out, structs, from)->Ok_0.refs.len() <= u32::MAX,
    decreases upto - from,
{
    if from < upto {
        lemma_add_structs_grow(out, structs, from, upto - 1);
        lemma_add_structs_tables(out, structs, upto - 1);
        lemma_add_struct_tables(spec_add_structs(out, structs, upto - 1)->Ok_0, structs[upto - 1]);
    } else {
        lemma_add_structs_tables(out, structs, upto);
    }
}

/// What a page is written as: the null frame, the frames of its chunks,
/// and the frame of the page chunk, which counts the identities and the
/// references of the page; the null frame points at the identity of the
/// null chunk and the last frame at that of the page chunk.
pub proof fn lemma_page_frames_is(page: PageView, version: u16)
    requires
        spec_page_frames(page, version) is Ok,
    ensures
        ({
            let done = spec_page_frames(page, version)->Ok_0;
            let first = spec_page_first(page, version);
            let body = spec_page_body(page, version, page.structs.len() as int);
            let null_at = first.frames[0].chunk_map_index as int;
            let page_at = done.frames.last().chunk_map_index as int;
            &&& body is Ok
            &&& first.infos.len() <= u32::MAX
            &&& first.refs.len() <= u32::MAX
            &&& done.infos == body->Ok_0.infos
            &&& done.refs == body->Ok_0.refs
            &&& done.infos.len() <= u32::MAX
            &&& done.refs.len() <= u32::MAX
            &&& done.frames.len() == page.structs.len() + 2
            &&& done.frames.drop_last() == body->Ok_0.frames
            &&& done.frames[0] == first.frames[0]
            &&& first.frames[0].version == version
            &&& done.frames.last().version == version
            &&& null_at < done.infos.len()
            &&& done.infos[null_at] == spec_null_info()
            &&& page_at < done.infos.len()
            &&& done.infos[page_at] == spec_page_info()
            &&& spec_page(done.frames.last().chunk_buffer, version) == Ok::<NuccChunkPage, NuccError>(
                NuccChunkPage {
                    version,
                    map_index_count: done.infos.len() as u32,
                    reference_count: done.refs.len() as u32,
                },
            )
        }),
{
    reveal(spec_page_frames);
    lemma_page_counts(page, version);
    let start = spec_page_start(page);
    let first = spec_page_first(page, version);
    let done = spec_page_frames(page, version)->Ok_0;
    let body = spec_page_body(page, version, page.structs.len() as int)->Ok_0;
    let with_null = spec_interned(start.0, spec_null_info());
    let with_page = spec_interned(with_null, spec_page_info());
    lemma_interned(start.0, spec_null_info());
    lemma_interned(with_null, spec_page_info());
    lemma_interned(with_page, spec_index_info());
    lemma_add_structs_tables(first, page.structs, page.structs.len() as int);
    lemma_position(done.infos, spec_page_info());
    assert(done.frames.drop_last() =~= body.frames);
    let null_at = first.frames[0].chunk_map_index as int;
    assert(with_page[null_at] == spec_null_info());
    assert(first.infos[null_at] == spec_null_info());
    assert(body.frames[0] == first.frames[0]);
}

/// The wire chunk that the `m`-th chunk of a page is written as, and the
/// tables of the page as it leaves them.
pub open spec fn spec_page_made(page: PageView, version: u16, m: int) -> Result<
    (AnyChunkView, Seq<StructInfoView>, Seq<StructReferenceView>),
    NuccError,
> {
    spec_chunk_of(
        page.structs[m],
        spec_page_body(page, version, m)->Ok_0.infos,
        spec_page_body(page, version, m)->Ok_0.refs,
    )
}

/// What a chunk adds to a page, piece by piece: the payload of its wire
/// chunk in a new frame, which bears the version of the chunk and points
/// at its identity; that identity behind what the wire chunk left in the
/// table of identities; and the references as the wire chunk left them.
pub proof fn lemma_add_struct_is(out: PageOut, s: AnyStructView)
    requires
        spec_add_struct(out, s) is Ok,
    ensures
        spec_chunk_of(s, out.infos, out.refs) is Ok,
        spec_write_struct(spec_chunk_of(s, out.infos, out.refs)->Ok_0.0) is Ok,
        spec_add_struct(out, s)->Ok_0.frames.len() == out.frames.len() + 1,
        spec_add_struct(out, s)->Ok_0.frames.last().chunk_buffer == spec_write_struct(
            spec_chunk_of(s, out.infos, out.refs)->Ok_0.0,
        )->Ok_0,
        spec_add_struct(out, s)->Ok_0.frames.last().version == spec_struct_version(s),
        spec_add_struct(out, s)->Ok_0.frames.last().chunk_map_index < spec_add_struct(
            out,
            s,
        )->Ok_0.infos.len(),
        spec_add_struct(out, s)->Ok_0.infos[spec_add_struct(
            out,
            s,
        )->Ok_0.frames.last().chunk_map_index as int] == spec_info_of(s),
        spec_is_prefix(
            spec_chunk_of(s, out.infos, out.refs)->Ok_0.1,
            spec_add_struct(out, s)->Ok_0.infos,
        ),
        spec_add_struct(out, s)->Ok_0.refs == spec_chunk_of(s, out.infos, out.refs)->Ok_0.2,
{
    reveal(spec_add_struct);
    let made = spec_chunk_of(s, out.infos, out.refs)->Ok_0;
    lemma_interned(made.1, spec_info_of(s));
}

/// The frame of the `m`-th chunk of a written page holds the payload of
/// the wire chunk and the version of the chunk, and points at the identity
/// of the chunk; what the chunk left in the tables of the page opens the
/// tables of the page from where the page begins.
pub proof fn lemma_struct_frame(
    page: PageView,
    version: u16,
    frames: Seq<ChunkFrameView>,
    mapped: Seq<StructInfoView>,
    refs: Seq<StructReferenceView>,
    k: int,
    info_at: int,
    ref_at: int,
    m: int,
)
    requires
        spec_page_frames(page, version) is Ok,
        spec_page_lies(
            spec_page_frames(page, version)->Ok_0,
            frames,
            mapped,
            refs,
            k,
            info_at,
            ref_at,
        ),
        0 <= m < page.structs.len(),
    ensures
        spec_page_made(page, version, m) is Ok,
        spec_write_struct(spec_page_made(page, version, m)->Ok_0.0) is Ok,
        0 <= k + 1 + m < frames.len(),
        frames[k + 1 + m].chunk_buffer == spec_write_struct(
            spec_page_made(page, version, m)->Ok_0.0,
        )->Ok_0,
        frames[k + 1 + m].version == spec_struct_version(page.structs[m]),
        info_at + frames[k + 1 + m].chunk_map_index < mapped.len(),
        mapped[info_at + frames[k + 1 + m].chunk_map_index] == spec_info_of(page.structs[m]),
        spec_is_prefix(
            spec_page_made(page, version, m)->Ok_0.1,
            mapped.subrange(info_at, mapped.len() as int),
        ),
        spec_is_prefix(
            spec_page_made(page, version, m)->Ok_0.2,
            refs.subrange(ref_at, refs.len() as int),
        ),
{
    lemma_page_frames_is(page, version);
    let done = spec_page_frames(page, version)->Ok_0;
    let first = spec_page_first(page, version);
    let count = page.structs.len() as int;
    let s = page.structs[m];
    lemma_add_structs_grow(first, page.structs, m, count);
    lemma_add_structs_grow(first, page.structs, m + 1, count);
    let whole = spec_add_structs(first, page.structs, count)->Ok_0;
    let before = spec_add_structs(first, page.structs, m)->Ok_0;
    let after = spec_add_structs(first, page.structs, m + 1)->Ok_0;
    assert(spec_add_structs(first, page.structs, m + 1) == spec_add_struct(before, s));
    lemma_add_struct_is(before, s);
    let made = spec_chunk_of(s, before.infos, before.refs)->Ok_0;
    assert(made == spec_page_made(page, version, m)->Ok_0);
    let frame = after.frames[m + 1];
    assert(frame == after.frames.last());
    let at = frame.chunk_map_index as int;
    assert(done.infos[at] == after.infos[at]);
    assert(done.frames[m + 1] == done.frames.drop_last()[m + 1]);
    assert(whole.frames[m + 1] == after.frames[m + 1]);
    assert(frames[k + (m + 1)] == done.frames[m + 1]);
    assert(frames[k + 1 + m] == frame);
    assert(mapped[info_at + at] == done.infos[at]);
    let page_infos = mapped.subrange(info_at, mapped.len() as int);
    let page_refs = refs.subrange(ref_at, refs.len() as int);
    assert forall|j: int| 0 <= j < made.1.len() implies made.1[j] == page_infos[j] by {
        assert(after.infos[j] == made.1[j]);
        assert(done.infos[j] == after.infos[j]);
        assert(mapped[info_at + j] == done.infos[j]);
    }
    assert forall|j: int| 0 <= j < made.2.len() implies made.2[j] == page_refs[j] by {
        assert(after.refs[j] == made.2[j]);
        assert(done.refs[j] == after.refs[j]);
        assert(refs[ref_at + j] == done.refs[j]);
    }
}

/// Reading the frame of a chunk of a written page adds the chunk,
/// settled, to the chunks gathered.
pub proof fn lemma_page_step(
    page: PageView,
    version: u16,
    frames: Seq<ChunkFrameView>,
    mapped: Seq<StructInfoView>,
    refs: Seq<StructReferenceView>,
    k: int,
    info_at: int,
    ref_at: int,
    m: int,
    gathered: Seq<AnyStructView>,
    pages: Seq<PageView>,
)
    requires
        spec_page_frames(page, version) is Ok,
        spec_all_regular(page.structs),
        spec_page_lies(
            spec_page_frames(page, version)->Ok_0,
            frames,
            mapped,
            refs,
            k,
            info_at,
            ref_at,
        ),
        0 <= m < page.structs.len(),
    ensures
        spec_pages(frames, k + 1 + m, mapped, refs, info_at, ref_at, gathered, pages) == spec_pages(
            frames,
            k + 2 + m,
            mapped,
            refs,
            info_at,
            ref_at,
            gathered.push(spec_settled_struct(page.structs[m])),
            pages,
        ),
{
    lemma_struct_frame(page, version, frames, mapped, refs, k, info_at, ref_at, m);
    let s = page.structs[m];
    let body = spec_page_body(page, version, m)->Ok_0;
    assert(spec_regular(page.structs[m]));
    lemma_struct_reread(
        s,
        body.infos,
        body.refs,
        mapped.subrange(info_at, mapped.len() as int),
        refs.subrange(ref_at, refs.len() as int),
    );
}

/// Reading the frames of the chunks of a written page, from the `m`-th
/// chunk on, adds these chunks, settled, to the chunks gathered.
pub proof fn lemma_page_steps(
    page: PageView,
    version: u16,
    frames: Seq<ChunkFrameView>,
    mapped: Seq<StructInfoView>,
    refs: Seq<StructReferenceView>,
    k: int,
    info_at: int,
    ref_at: int,
    m: int,
    pages: Seq<PageView>,
)
    requires
        spec_page_frames(page, version) is Ok,
        spec_all_regular(page.structs),
        spec_page_lies(
            spec_page_frames(page, version)->Ok_0,
            frames,
            mapped,
            refs,
            k,
            info_at,
            ref_at,
        ),
        0 <= m <= page.structs.len(),
    ensures
        spec_pages(
            frames,
            k + 1 + m,
            mapped,
            refs,
            info_at,
            ref_at,
            spec_settled_structs(page.structs).subrange(0, m),
            pages,
        ) == spec_pages(
            frames,
            k + 1 + page.structs.len(),
            mapped,
            refs,
            info_at,
            ref_at,
            spec_settled_structs(page.structs),
            pages,
        ),
    decreases page.structs.len() - m,
{
    let all = spec_settled_structs(page.structs);
    if m < page.structs.len() {
        lemma_page_step(
            page,
            version,
            frames,
            mapped,
            refs,
            k,
            info_at,
            ref_at,
            m,
            all.subrange(0, m),
            pages,
        );
        assert(all.subrange(0, m).push(spec_settled_struct(page.structs[m])) =~= all.subrange(
            0,
            m + 1,
        ));
        lemma_page_steps(page, version, frames, mapped, refs, k, info_at, ref_at, m + 1, pages);
    } else {
        assert(all.subrange(0, m) =~= all);
    }
}

/// Settling keeps whether one of the chunks is of a type that is not
/// known.
pub proof fn lemma_settled_has_unknown(structs: Seq<AnyStructView>)
    ensures
        spec_has_unknown(spec_settled_structs(structs)) == spec_has_unknown(structs),
{
    let settled = spec_settled_structs(structs);
    if spec_has_unknown(structs) {
        let i = choose|i: int| 0 <= i < structs.len() && (#[trigger] structs[i]) is Unknown;
        assert(settled[i] is Unknown);
    }
    if spec_has_unknown(settled) {
        let i = choose|i: int| 0 <= i < settled.len() && (#[trigger] settled[i]) is Unknown;
        assert(structs[i] is Unknown);
    }
}

/// Reading the frames of a written page gives the page, settled, and goes
/// on behind its frames, its identities and its references.
pub proof fn lemma_page_reread(
    page: PageView,
    version: u16,
    frames: Seq<ChunkFrameView>,
    mapped: Seq<StructInfoView>,
    refs: Seq<StructReferenceView>,
    k: int,
    info_at: int,
    ref_at: int,
    pages: Seq<PageView>,
)
    requires
        spec_page_frames(page, version) is Ok,
        spec_all_regular(page.structs),
        spec_page_lies(
            spec_page_frames(page, version)->Ok_0,
            frames,
            mapped,
            refs,
            k,
            info_at,
            ref_at,
        ),
    ensures
        spec_pages(
            frames,
            k,
            mapped,
            refs,
            info_at,
            ref_at,
            Seq::<AnyStructView>::empty(),
            pages,
        ) == spec_pages(
            frames,
            k + spec_page_frames(page, version)->Ok_0.frames.len(),
            mapped,
            refs,
            info_at + spec_page_frames(page, version)->Ok_0.infos.len(),
            ref_at + spec_page_frames(page, version)->Ok_0.refs.len(),
            Seq::<AnyStructView>::empty(),
            pages.push(spec_settled_page(page, version)),
        ),
{
    lemma_page_frames_is(page, version);
    let done = spec_page_frames(page, version)->Ok_0;
    let first = spec_page_first(page, version);
    let count = page.structs.len() as int;
    let all = spec_settled_structs(page.structs);
    let none = Seq::<AnyStructView>::empty();
    lemma_type_name_round_trip(NuccChunkType::NuccChunkNull);
    lemma_type_name_round_trip(NuccChunkType::NuccChunkPage);
    lemma_settled_has_unknown(page.structs);
    // The null frame.
    let null_at = first.frames[0].chunk_map_index as int;
    assert(frames[k] == done.frames[0]) by {
        assert(frames[k + 0] == done.frames[0]);
    }
    assert(mapped[info_at + null_at] == done.infos[null_at]);
    assert(spec_pages(frames, k, mapped, refs, info_at, ref_at, none, pages) == spec_pages(
        frames,
        k + 1,
        mapped,
        refs,
        info_at,
        ref_at,
        none,
        pages,
    ));
    // The frames of the chunks.
    assert(all.subrange(0, 0) =~= none);
    lemma_page_steps(page, version, frames, mapped, refs, k, info_at, ref_at, 0, pages);
    // The frame of the page chunk.
    let last = done.frames.last();
    let page_at = last.chunk_map_index as int;
    assert(frames[k + 1 + count] == last) by {
        assert(frames[k + (count + 1)] == done.frames[count + 1]);
    }
    assert(mapped[info_at + page_at] == done.infos[page_at]);
    assert(mapped.subrange(info_at, info_at + done.infos.len()) =~= done.infos);
    assert(refs.subrange(ref_at, ref_at + done.refs.len()) =~= done.refs);
    assert(spec_closed_page(
        all,
        mapped,
        refs,
        info_at,
        ref_at,
        done.infos.len() as int,
        done.refs.len() as int,
    ) == spec_settled_page(page, version));
}

/// What a file holds when some of its pages are written opens what it
/// holds when more are.
pub proof fn lemma_add_pages_grow(pages: Seq<PageView>, from: int, upto: int, version: u16)
    requires
        0 <= from <= upto <= pages.len(),
        spec_add_pages(pages, upto, version) is Ok,
    ensures
        spec_add_pages(pages, from, version) is Ok,
        spec_is_prefix(
            spec_add_pages(pages, from, version)->Ok_0.frames,
            spec_add_pages(pages, upto, version)->Ok_0.frames,
        ),
        spec_is_prefix(
            spec_add_pages(pages, from, version)->Ok_0.infos,
            spec_add_pages(pages, upto, version)->Ok_0.infos,
        ),
        spec_is_prefix(
            spec_add_pages(pages, from, version)->Ok_0.indices,
            spec_add_pages(pages, upto, version)->Ok_0.indices,
        ),
        spec_is_prefix(
            spec_add_pages(pages, from, version)->Ok_0.refs,
            spec_add_pages(pages, upto, version)->Ok_0.refs,
        ),
    decreases upto - from,
{
    reveal(spec_add_page);
    if from < upto {
        lemma_add_pages_grow(pages, from, upto - 1, version);
        let before = spec_add_pages(pages, upto - 1, version)->Ok_0;
        let done = spec_page_frames(pages[upto - 1], version)->Ok_0;
        lemma_intern_all_grows(before.infos, done.infos);
    }
}

/// What a page of a written file was written as lies in the file: behind
/// the frames, the map indices and the references of the pages before it.
pub proof fn lemma_page_lies_in_file(pages: Seq<PageView>, version: u16, p: int)
    requires
        spec_add_pages(pages, pages.len() as int, version) is Ok,
        0 <= p < pages.len(),
    ensures
        spec_add_pages(pages, p, version) is Ok,
        spec_add_pages(pages, p + 1, version) is Ok,
        spec_page_frames(pages[p], version) is Ok,
        spec_page_lies(
            spec_page_frames(pages[p], version)->Ok_0,
            spec_add_pages(pages, pages.len() as int, version)->Ok_0.frames,
            spec_file_mapped(spec_add_pages(pages, pages.len() as int, version)->Ok_0),
            spec_add_pages(pages, pages.len() as int, version)->Ok_0.refs,
            spec_add_pages(pages, p, version)->Ok_0.frames.len() as int,
            spec_add_pages(pages, p, version)->Ok_0.indices.len() as int,
            spec_add_pages(pages, p, version)->Ok_0.refs.len() as int,
        ),
        spec_add_pages(pages, p + 1, version)->Ok_0.frames.len() == spec_add_pages(
            pages,
            p,
            version,
        )->Ok_0.frames.len() + spec_page_frames(pages[p], version)->Ok_0.frames.len(),
        spec_add_pages(pages, p + 1, version)->Ok_0.indices.len() == spec_add_pages(
            pages,
            p,
            version,
        )->Ok_0.indices.len() + spec_page_frames(pages[p], version)->Ok_0.infos.len(),
        spec_add_pages(pages, p + 1, version)->Ok_0.refs.len() == spec_add_pages(
            pages,
            p,
            version,
        )->Ok_0.refs.len() + spec_page_frames(pages[p], version)->Ok_0.refs.len(),
{
    reveal(spec_add_page);
    let all = pages.len() as int;
    lemma_add_pages_grow(pages, p + 1, all, version);
    lemma_add_pages_grow(pages, p, p + 1, version);
    let out = spec_add_pages(pages, all, version)->Ok_0;
    let before = spec_add_pages(pages, p, version)->Ok_0;
    let after = spec_add_pages(pages, p + 1, version)->Ok_0;
    let done = spec_page_frames(pages[p], version)->Ok_0;
    assert(spec_add_pages(pages, p + 1, version) == spec_add_page(before, pages[p], version));
    let mapped = spec_file_mapped(out);
    let numbers = spec_numbers(before.infos, done.infos);
    lemma_numbers_in_range(before.infos, done.infos);
    lemma_intern_all_grows(out.infos, spec_ref_targets(out.refs));
    let k = before.frames.len() as int;
    let info_at = before.indices.len() as int;
    let ref_at = before.refs.len() as int;
    assert forall|j: int| 0 <= j < done.frames.len() implies out.frames[k + j]
        == #[trigger] done.frames[j] by {
        assert(after.frames[k + j] == done.frames[j]);
    }
    assert forall|j: int| 0 <= j < done.infos.len() implies mapped[info_at + j]
        == #[trigger] done.infos[j] by {
        assert(after.indices[info_at + j] == numbers[j]);
        assert(out.indices[info_at + j] == after.indices[info_at + j]);
        assert(after.infos[numbers[j] as int] == done.infos[j]);
        assert(out.infos[numbers[j] as int] == after.infos[numbers[j] as int]);
    }
    assert forall|j: int| 0 <= j < done.refs.len() implies out.refs[ref_at + j]
        == #[trigger] done.refs[j] by {
        assert(after.refs[ref_at + j] == done.refs[j]);
    }
}

/// The pages of a document as they are read back.
pub open spec fn spec_settled_pages(pages: Seq<PageView>, version: u16) -> Seq<PageView> {
    Seq::new(pages.len(), |p: int| spec_settled_page(pages[p], version))
}

/// Whether every chunk of every page is one that is read back as what it
/// is.
pub open spec fn spec_all_pages_regular(pages: Seq<PageView>) -> bool {
    forall|p: int| 0 <= p < pages.len() ==> spec_all_regular((#[trigger] pages[p]).structs)
}

/// Reading the frames of a written file gives, after the frames of the
/// first `p` pages, these pages, settled.
pub proof fn lemma_pages_reread(pages: Seq<PageView>, version: u16, p: int)
    requires
        spec_add_pages(pages, pages.len() as int, version) is Ok,
        spec_all_pages_regular(pages),
        0 <= p <= pages.len(),
    ensures
        spec_add_pages(pages, p, version) is Ok,
        spec_pages(
            spec_add_pages(pages, pages.len() as int, version)->Ok_0.frames,
            0,
            spec_file_mapped(spec_add_pages(pages, pages.len() as int, version)->Ok_0),
            spec_add_pages(pages, pages.len() as int, version)->Ok_0.refs,
            0,
            0,
            Seq::<AnyStructView>::empty(),
            Seq::<PageView>::empty(),
        ) == spec_pages(
            spec_add_pages(pages, pages.len() as int, version)->Ok_0.frames,
            spec_add_pages(pages, p, version)->Ok_0.frames.len() as int,
            spec_file_mapped(spec_add_pages(pages, pages.len() as int, version)->Ok_0),
            spec_add_pages(pages, pages.len() as int, version)->Ok_0.refs,
            spec_add_pages(pages, p, version)->Ok_0.indices.len() as int,
            spec_add_pages(pages, p, version)->Ok_0.refs.len() as int,
            Seq::<AnyStructView>::empty(),
            spec_settled_pages(pages, version).subrange(0, p),
        ),
    decreases p,
{
    let all = pages.len() as int;
    let out = spec_add_pages(pages, all, version)->Ok_0;
    let settled = spec_settled_pages(pages, version);
    if p > 0 {
        lemma_pages_reread(pages, version, p - 1);
        lemma_page_lies_in_file(pages, version, p - 1);
        let before = spec_add_pages(pages, p - 1, version)->Ok_0;
        assert(spec_all_regular(pages[p - 1].structs));
        lemma_page_reread(
            pages[p - 1],
            version,
            out.frames,
            spec_file_mapped(out),
            out.refs,
            before.frames.len() as int,
            before.indices.len() as int,
            before.refs.len() as int,
            settled.subrange(0, p - 1),
        );
        assert(settled.subrange(0, p - 1).push(spec_settled_page(pages[p - 1], version))
            =~= settled.subrange(0, p));
    } else {
        lemma_add_pages_grow(pages, 0, all, version);
        assert(settled.subrange(0, 0) =~= Seq::<PageView>::empty());
    }
}

/// Whether every string of the three pools of the file that a document is
/// written as is read back from its pool as it was written.
pub open spec fn spec_texts_kept(x: XfbinView) -> bool {
    let out = spec_add_pages(x.pages, x.pages.len() as int, x.version)->Ok_0;
    &&& spec_all_kept(spec_written_types(out))
    &&& spec_all_kept(spec_written_paths(out))
    &&& spec_all_kept(spec_written_names(out))
}

/// A document as it is read back: every page with its chunks settled and
/// with the tables of the page as they were written.
pub open spec fn spec_settled(x: XfbinView) -> XfbinView {
    XfbinView { version: x.version, pages: spec_settled_pages(x.pages, x.version) }
}

/// The container that a document is written as stands for the document
/// again, settled, where every chunk is one that is read back as what it is
/// and every string of the pools is read back as it was written.
pub proof fn lemma_xfbin_reread(x: XfbinView)
    requires
        spec_xfbin_file(x) is Ok,
        spec_all_pages_regular(x.pages),
        spec_texts_kept(x),
    ensures
        spec_xfbin(spec_xfbin_file(x)->Ok_0) == Ok::<XfbinView, NuccError>(spec_settled(x)),
{
    let all = x.pages.len() as int;
    lemma_written_file(x);
    let out = spec_add_pages(x.pages, all, x.version)->Ok_0;
    lemma_index_reread(out, x.version);
    lemma_pages_reread(x.pages, x.version, all);
    let settled = spec_settled_pages(x.pages, x.version);
    assert(settled.subrange(0, all) =~= settled);
}

/// A document that can be written is read back from its bytes as it was,
/// settled, where every chunk is one that is read back as what it is and
/// every string of the pools is read back as it was written.
pub proof fn lemma_document_round_trip(x: XfbinView)
    requires
        spec_write_xfbin(x) is Ok,
        spec_all_pages_regular(x.pages),
        spec_texts_kept(x),
    ensures
        spec_read_xfbin(spec_write_xfbin(x)->Ok_0) == Ok::<XfbinView, NuccError>(spec_settled(x)),
{
    lemma_read_of_written(x);
    lemma_xfbin_reread(x);
}

/// The pages that are gathered from frames hold only chunks that are
/// read back as what they are, where the chunks and pages gathered before
/// do.
pub proof fn lemma_pages_regular(
    frames: Seq<ChunkFrameView>,
    k: int,
    mapped: Seq<StructInfoView>,
    refs: Seq<StructReferenceView>,
    info_at: int,
    ref_at: int,
    structs: Seq<AnyStructView>,
    done: Seq<PageView>,
)
    requires
        spec_pages(frames, k, mapped, refs, info_at, ref_at, structs, done) is Ok,
        spec_all_regular(structs),
        spec_all_pages_regular(done),
    ensures
        spec_all_pages_regular(
            spec_pages(frames, k, mapped, refs, info_at, ref_at, structs, done)->Ok_0,
        ),
    decreases frames.len() - k,
{
    if 0 <= k < frames.len() {
        let info = mapped[info_at + frames[k].chunk_map_index];
        let read = spec_read_struct(frames[k].chunk_buffer, info.chunk_type, frames[k].version);
        match read {
            Ok(AnyChunkView::Null(_)) => {
                lemma_pages_regular(frames, k + 1, mapped, refs, info_at, ref_at, structs, done);
            },
            Ok(AnyChunkView::Index) => {
                lemma_pages_regular(frames, k + 1, mapped, refs, info_at, ref_at, structs, done);
            },
            Ok(AnyChunkView::Page(page)) => {
                let closed = spec_closed_page(
                    structs,
                    mapped,
                    refs,
                    info_at,
                    ref_at,
                    page.map_index_count as int,
                    page.reference_count as int,
                );
                let more = done.push(closed);
                assert forall|p: int| 0 <= p < more.len() implies spec_all_regular(
                    (#[trigger] more[p]).structs,
                ) by {
                    if p < done.len() {
                        assert(more[p] == done[p]);
                    }
                }
                lemma_pages_regular(
                    frames,
                    k + 1,
                    mapped,
                    refs,
                    info_at + page.map_index_count,
                    ref_at + page.reference_count,
                    Seq::<AnyStructView>::empty(),
                    more,
                );
            },
            Ok(chunk) => {
                let page_infos = mapped.subrange(info_at, mapped.len() as int);
                let page_refs = refs.subrange(ref_at, refs.len() as int);
                let made = spec_struct_of(chunk, page_infos, page_refs)->Ok_0;
                let s = spec_with_info(made, info);
                match chunk {
                    AnyChunkView::Anm(anm) => {
                        lemma_read_is_as_read(anm, page_infos, page_refs);
                    },
                    _ => {},
                }
                assert(spec_regular(s));
                let more = structs.push(s);
                assert forall|i: int| 0 <= i < more.len() implies spec_regular(
                    #[trigger] more[i],
                ) by {
                    if i < structs.len() {
                        assert(more[i] == structs[i]);
                    }
                }
                lemma_pages_regular(frames, k + 1, mapped, refs, info_at, ref_at, more, done);
            },
            Err(_) => {},
        }
    }
}

/// Every chunk of a document that was read is one that is read back as
/// what it is.
pub proof fn lemma_read_is_regular(file: FileView)
    requires
        spec_xfbin(file) is Ok,
    ensures
        spec_all_pages_regular(spec_xfbin(file)->Ok_0.pages),
{
    let names = spec_pool_strings(file.index.chunk_names)->Ok_0;
    let paths = spec_pool_strings(file.index.file_paths)->Ok_0;
    let types = spec_pool_strings(file.index.chunk_types)->Ok_0;
    let infos = spec_struct_infos(file.index.chunk_maps, names, paths, types)->Ok_0;
    let refs = spec_struct_references(file.index.chunk_references, names, infos)->Ok_0;
    let mapped = spec_mapped(file.index.chunk_map_indices, infos)->Ok_0;
    lemma_pages_regular(
        file.chunks,
        0,
        mapped,
        refs,
        0,
        0,
        Seq::<AnyStructView>::empty(),
        Seq::<PageView>::empty(),
    );
}

/// A document that was read from a file and can be written is read back
/// from what it is written as: the same document, settled, where every
/// string of the pools is read back as it was written.
pub proof fn lemma_read_written_read(bytes: Seq<u8>)
    requires
        spec_read_xfbin(bytes) is Ok,
        spec_write_xfbin(spec_read_xfbin(bytes)->Ok_0) is Ok,
        spec_texts_kept(spec_read_xfbin(bytes)->Ok_0),
    ensures
        spec_read_xfbin(spec_write_xfbin(spec_read_xfbin(bytes)->Ok_0)->Ok_0) == Ok::<
            XfbinView,
            NuccError,
        >(spec_settled(spec_read_xfbin(bytes)->Ok_0)),
{
    lemma_read_is_regular(spec_file(bytes)->Ok_0);
    lemma_document_round_trip(spec_read_xfbin(bytes)->Ok_0);
}

} // verus!
