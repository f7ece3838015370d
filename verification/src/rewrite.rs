//! That a document which was read back is written as it was before.

use vstd::prelude::*;

use crate::error::NuccError;
use crate::nucc::AnyStructView;
use crate::nucc::StructInfoView;
use crate::nucc::StructReferenceView;
use crate::nucc::nucc_anm::rewrite::lemma_anm_chunk_within;
use crate::nucc::nucc_anm::rewrite::lemma_settled_anm_chunk;
use crate::nucc::spec_chunk_of;
use crate::nucc::spec_info_of;
use crate::nucc_chunk::AnyChunkView;
use crate::nucc_chunk::nucc_chunk_index::spec_index_info;
use crate::nucc_chunk::nucc_chunk_null::spec_null_info;
use crate::nucc_chunk::nucc_chunk_page::spec_page_info;
use crate::round_trip::lemma_add_struct_is;
use crate::round_trip::lemma_add_structs_grow;
use crate::round_trip::lemma_document_round_trip;
use crate::round_trip::lemma_page_frames_is;
use crate::round_trip::lemma_settled_has_unknown;
use crate::round_trip::spec_all_pages_regular;
use crate::round_trip::spec_page_first;
use crate::round_trip::spec_settled;
use crate::round_trip::spec_settled_page;
use crate::round_trip::spec_settled_pages;
use crate::round_trip::spec_settled_struct;
use crate::round_trip::spec_settled_structs;
use crate::round_trip::spec_texts_kept;
use crate::spec_read_xfbin;
use crate::spec_write_xfbin;
use crate::table::lemma_interned;
use crate::table::lemma_interned_within;
use crate::table::lemma_prefix_chain;
use crate::table::spec_interned;
use crate::table::spec_is_prefix;
use crate::table::spec_number;
use crate::xfbin::PageOut;
use crate::xfbin::PageView;
use crate::xfbin::XfbinView;
use crate::xfbin::lemma_add_structs_tables;
use crate::xfbin::spec_add_page;
use crate::xfbin::spec_add_pages;
use crate::xfbin::spec_add_struct;
use crate::xfbin::spec_add_structs;
use crate::xfbin::spec_has_unknown;
use crate::xfbin::spec_page_frames;
use crate::xfbin::spec_page_start;
use crate::xfbin::spec_reserved;
use crate::xfbin::spec_xfbin_file;

verus! {

/// A settled chunk is written as the chunk itself.
pub proof fn lemma_settled_chunk_of(
    s: AnyStructView,
    infos: Seq<StructInfoView>,
    refs: Seq<StructReferenceView>,
)
    ensures
        spec_chunk_of(spec_settled_struct(s), infos, refs) == spec_chunk_of(s, infos, refs),
{
    match s {
        AnyStructView::Anm(anm) => {
            lemma_settled_anm_chunk(anm, anm.struct_info, infos, refs);
        },
        _ => {},
    }
}

/// A settled chunk adds to a page what the chunk itself adds.
pub proof fn lemma_settled_add_struct(out: PageOut, s: AnyStructView)
    ensures
        spec_add_struct(out, spec_settled_struct(s)) == spec_add_struct(out, s),
{
    reveal(spec_add_struct);
    lemma_settled_chunk_of(s, out.infos, out.refs);
}

/// Settled chunks add to a page what the chunks themselves add.
pub proof fn lemma_settled_add_structs(out: PageOut, structs: Seq<AnyStructView>, upto: int)
    ensures
        spec_add_structs(out, spec_settled_structs(structs), upto) == spec_add_structs(
            out,
            structs,
            upto,
        ),
    decreases upto,
{
    if 0 < upto <= structs.len() {
        lemma_settled_add_structs(out, structs, upto - 1);
        match spec_add_structs(out, structs, upto - 1) {
            Ok(so_far) => {
                lemma_settled_add_struct(so_far, structs[upto - 1]);
            },
            Err(_) => {},
        }
    }
}

/// A chunk is written as the same wire chunk in tables that begin with
/// the tables as it found them and as it left them, and leaves those as
/// they are.
pub proof fn lemma_chunk_of_within(
    s: AnyStructView,
    infos0: Seq<StructInfoView>,
    refs0: Seq<StructReferenceView>,
    infos: Seq<StructInfoView>,
    refs: Seq<StructReferenceView>,
)
    requires
        spec_chunk_of(s, infos0, refs0) is Ok,
        spec_is_prefix(infos0, infos),
        spec_is_prefix(refs0, refs),
        spec_is_prefix(spec_chunk_of(s, infos0, refs0)->Ok_0.1, infos),
        spec_is_prefix(spec_chunk_of(s, infos0, refs0)->Ok_0.2, refs),
        infos.len() <= u32::MAX,
        refs.len() <= u32::MAX,
    ensures
        spec_chunk_of(s, infos, refs) == Ok::<
            (AnyChunkView, Seq<StructInfoView>, Seq<StructReferenceView>),
            NuccError,
        >((spec_chunk_of(s, infos0, refs0)->Ok_0.0, infos, refs)),
{
    match s {
        AnyStructView::Anm(anm) => {
            lemma_anm_chunk_within(anm, infos0, refs0, infos, refs);
        },
        _ => {},
    }
}

/// A page in the making with other tables.
pub open spec fn spec_page_at(
    out: PageOut,
    infos: Seq<StructInfoView>,
    refs: Seq<StructReferenceView>,
) -> PageOut {
    PageOut { infos, refs, ..out }
}

/// A chunk adds the same frame to a page whose tables begin with the
/// tables as the chunk found them and as it left them, and leaves those as
/// they are.
pub proof fn lemma_add_struct_within(
    out: PageOut,
    s: AnyStructView,
    infos: Seq<StructInfoView>,
    refs: Seq<StructReferenceView>,
)
    requires
        spec_add_struct(out, s) is Ok,
        spec_is_prefix(out.infos, infos),
        spec_is_prefix(out.refs, refs),
        spec_is_prefix(spec_add_struct(out, s)->Ok_0.infos, infos),
        spec_is_prefix(spec_add_struct(out, s)->Ok_0.refs, refs),
        infos.len() <= u32::MAX,
        refs.len() <= u32::MAX,
    ensures
        spec_add_struct(spec_page_at(out, infos, refs), s) == Ok::<PageOut, NuccError>(
            spec_page_at(spec_add_struct(out, s)->Ok_0, infos, refs),
        ),
{
    lemma_add_struct_is(out, s);
    let made = spec_chunk_of(s, out.infos, out.refs)->Ok_0;
    let next = spec_add_struct(out, s)->Ok_0;
    lemma_prefix_chain(made.1, next.infos, infos);
    lemma_chunk_of_within(s, out.infos, out.refs, infos, refs);
    reveal(spec_add_struct);
    lemma_interned_within(made.1, infos, spec_info_of(s));
}

/// The chunks of a page add the same frames to a page whose tables begin
/// with the tables as they found them and as they left them, and leave
/// those as they are.
pub proof fn lemma_add_structs_within(
    out: PageOut,
    structs: Seq<AnyStructView>,
    upto: int,
    infos: Seq<StructInfoView>,
    refs: Seq<StructReferenceView>,
)
    requires
        0 <= upto <= structs.len(),
        spec_add_structs(out, structs, upto) is Ok,
        out.infos.len() <= u32::MAX,
        out.refs.len() <= u32::MAX,
        spec_is_prefix(spec_add_structs(out, structs, upto)->Ok_0.infos, infos),
        spec_is_prefix(spec_add_structs(out, structs, upto)->Ok_0.refs, refs),
        infos.len() <= u32::MAX,
        refs.len() <= u32::MAX,
    ensures
        spec_add_structs(spec_page_at(out, infos, refs), structs, upto) == Ok::<
            PageOut,
            NuccError,
        >(spec_page_at(spec_add_structs(out, structs, upto)->Ok_0, infos, refs)),
    decreases upto,
{
    if upto > 0 {
        lemma_add_structs_grow(out, structs, upto - 1, upto);
        let before = spec_add_structs(out, structs, upto - 1)->Ok_0;
        let after = spec_add_structs(out, structs, upto)->Ok_0;
        lemma_prefix_chain(before.infos, after.infos, infos);
        lemma_prefix_chain(before.refs, after.refs, refs);
        lemma_add_structs_within(out, structs, upto - 1, infos, refs);
        lemma_add_struct_within(before, structs[upto - 1], infos, refs);
    }
}

/// The identities of the null chunk, of the page chunk and of the index
/// are found, in a table that begins with the table in which they were
/// entered, under the numbers that they got there, and entering them there
/// changes nothing.
pub proof fn lemma_reserved_within(start: Seq<StructInfoView>, infos: Seq<StructInfoView>)
    requires
        spec_is_prefix(spec_reserved(start), infos),
    ensures
        spec_reserved(infos) == infos,
        spec_number(infos, spec_null_info()) == spec_number(start, spec_null_info()),
{
    let with_null = spec_interned(start, spec_null_info());
    let with_page = spec_interned(with_null, spec_page_info());
    let reserved = spec_interned(with_page, spec_index_info());
    lemma_interned(start, spec_null_info());
    lemma_interned(with_null, spec_page_info());
    lemma_interned(with_page, spec_index_info());
    assert(spec_is_prefix(with_page, reserved));
    lemma_prefix_chain(with_page, reserved, infos);
    assert(spec_is_prefix(with_null, with_page));
    lemma_prefix_chain(with_null, with_page, infos);
    assert(spec_is_prefix(start, with_null));
    lemma_prefix_chain(start, with_null, infos);
    lemma_interned_within(start, infos, spec_null_info());
    lemma_interned_within(with_null, infos, spec_page_info());
    lemma_interned_within(with_page, infos, spec_index_info());
}

/// A page that was read back is written as it was before.
pub proof fn lemma_page_frames_settled(page: PageView, version: u16)
    requires
        spec_page_frames(page, version) is Ok,
    ensures
        spec_page_frames(spec_settled_page(page, version), version) == spec_page_frames(
            page,
            version,
        ),
{
    lemma_page_frames_is(page, version);
    lemma_settled_has_unknown(page.structs);
    let done = spec_page_frames(page, version)->Ok_0;
    let settled = spec_settled_page(page, version);
    let first = spec_page_first(page, version);
    let count = page.structs.len() as int;
    let body = spec_add_structs(first, page.structs, count)->Ok_0;
    lemma_settled_add_structs(spec_page_first(settled, version), page.structs, count);
    if spec_has_unknown(page.structs) {
        let start = spec_page_start(page);
        lemma_add_structs_tables(first, page.structs, count);
        lemma_prefix_chain(spec_reserved(start.0), body.infos, done.infos);
        lemma_reserved_within(start.0, done.infos);
        assert(spec_page_first(settled, version) == spec_page_at(first, done.infos, done.refs));
        lemma_add_structs_within(first, page.structs, count, done.infos, done.refs);
        assert(spec_page_at(body, done.infos, done.refs) == body);
    } else {
        assert(spec_page_first(settled, version) == first);
    }
    reveal(spec_page_frames);
}

/// Pages that were read back add to a file what they added before.
pub proof fn lemma_add_pages_settled(pages: Seq<PageView>, upto: int, version: u16)
    requires
        0 <= upto <= pages.len(),
        spec_add_pages(pages, upto, version) is Ok,
    ensures
        spec_add_pages(spec_settled_pages(pages, version), upto, version) == spec_add_pages(
            pages,
            upto,
            version,
        ),
    decreases upto,
{
    reveal(spec_add_page);
    if upto > 0 {
        lemma_add_pages_settled(pages, upto - 1, version);
        lemma_page_frames_settled(pages[upto - 1], version);
    }
}

/// A document that was read back is written as the container that it
/// was written as before.
pub proof fn lemma_xfbin_file_settled(x: XfbinView)
    requires
        spec_xfbin_file(x) is Ok,
    ensures
        spec_xfbin_file(spec_settled(x)) == spec_xfbin_file(x),
{
    lemma_add_pages_settled(x.pages, x.pages.len() as int, x.version);
}

/// Writing, reading and writing again gives the bytes that the first
/// writing gave, where every chunk is one that is read back as what it is
/// and every string of the pools is read back as it was written.
pub proof fn lemma_written_again(x: XfbinView)
    requires
        spec_write_xfbin(x) is Ok,
        spec_all_pages_regular(x.pages),
        spec_texts_kept(x),
    ensures
        spec_read_xfbin(spec_write_xfbin(x)->Ok_0) is Ok,
        spec_write_xfbin(spec_read_xfbin(spec_write_xfbin(x)->Ok_0)->Ok_0) == spec_write_xfbin(x),
{
    lemma_document_round_trip(x);
    lemma_xfbin_file_settled(x);
}

} // verus!
