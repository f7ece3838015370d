//! That an animation which was read back is written as it was before.

use vstd::prelude::*;

use crate::error::NuccError;
use crate::nucc::nucc_anm::clump::ClumpInfoView;
use crate::nucc::nucc_anm::clump::ClumpView;
use crate::nucc::nucc_anm::curve::Channel;
use crate::nucc::nucc_anm::curve::CurveView;
use crate::nucc::nucc_anm::entry::spec_channels;
use crate::nucc::nucc_anm::entry::EntryView;
use crate::nucc::nucc_anm::flatten::spec_place;
use crate::nucc::nucc_anm::flatten::spec_chunk_curves;
use crate::nucc::nucc_anm::flatten::spec_chunk_entry;
use crate::nucc::nucc_anm::flatten::spec_flat_forest;
use crate::nucc::nucc_anm::flatten::spec_flat_tree;
use crate::nucc::nucc_anm::flatten::spec_seen_before;
use crate::nucc::nucc_anm::pack::spec_add_clump;
use crate::nucc::nucc_anm::pack::spec_add_named;
use crate::nucc::nucc_anm::pack::spec_add_other;
use crate::nucc::nucc_anm::pack::spec_anm_chunk;
use crate::nucc::nucc_anm::pack::spec_anm_parts;
use crate::nucc::nucc_anm::pack::spec_other_flat;
use crate::nucc::nucc_anm::pack::AnmParts;
use crate::nucc::nucc_anm::rebuild::spec_settled_curves;
use crate::nucc::nucc_anm::rebuild::spec_settled_forest;
use crate::nucc::nucc_anm::rebuild::spec_settled_tree;
use crate::nucc::nucc_anm::reread::lemma_settled_forest_at;
use crate::nucc::nucc_anm::reread::spec_settled_anm;
use crate::nucc::nucc_anm::reread::spec_settled_clump;
use crate::nucc::nucc_anm::runs::lemma_add_clump_tables;
use crate::nucc::nucc_anm::AnmView;
use crate::nucc::StructInfoView;
use crate::nucc::StructReferenceView;
use crate::nucc_chunk::nucc_chunk_anm::clump::ClumpCoordIndex;
use crate::nucc_chunk::nucc_chunk_anm::ChunkAnmView;
use crate::table::lemma_intern_all_grows;
use crate::table::lemma_intern_all_within;
use crate::table::lemma_interned;
use crate::table::lemma_interned_within;
use crate::table::lemma_prefix_chain;
use crate::table::spec_intern_all;
use crate::table::spec_interned;
use crate::table::spec_is_prefix;

verus! {

/// Settling the curves of an entry does not change how many of them lie
/// on a channel.
pub proof fn lemma_settled_seen_before(curves: Seq<CurveView>, upto: int, channel: Channel)
    requires
        upto <= curves.len(),
    ensures
        spec_seen_before(spec_settled_curves(curves), upto, channel) == spec_seen_before(
            curves,
            upto,
            channel,
        ),
    decreases upto,
{
    if upto > 0 {
        lemma_settled_seen_before(curves, upto - 1, channel);
    }
}

/// Settled curves are written as the curves themselves.
pub proof fn lemma_settled_chunk_curves(channels: Seq<Channel>, curves: Seq<CurveView>, upto: int)
    ensures
        spec_chunk_curves(channels, spec_settled_curves(curves), upto) == spec_chunk_curves(
            channels,
            curves,
            upto,
        ),
    decreases upto,
{
    if 0 < upto <= curves.len() {
        lemma_settled_chunk_curves(channels, curves, upto - 1);
        lemma_settled_seen_before(curves, upto - 1, curves[upto - 1].channel);
    }
}

/// A settled tree is written as the tree itself.
pub proof fn lemma_settled_flat_tree(tree: EntryView, names: Seq<StructReferenceView>, clump: i16)
    ensures
        spec_flat_tree(spec_settled_tree(tree), names, clump) == spec_flat_tree(tree, names, clump),
        forall|place: ClumpCoordIndex|
            spec_chunk_entry(spec_settled_tree(tree), place) == #[trigger] spec_chunk_entry(
                tree,
                place,
            ),
    decreases tree,
{
    let settled = spec_settled_tree(tree);
    lemma_settled_chunk_curves(
        spec_channels(tree.entry_format),
        tree.curves,
        tree.curves.len() as int,
    );
    assert(settled.curves.len() == tree.curves.len());
    assert forall|place: ClumpCoordIndex|
        spec_chunk_entry(settled, place) == #[trigger] spec_chunk_entry(tree, place) by {}
    match spec_place(names, tree.entry_info, clump) {
        Ok(place) => {
            assert(spec_chunk_entry(settled, place) == spec_chunk_entry(tree, place));
            lemma_settled_flat_forest(tree.children, names, clump, Some(place));
        },
        Err(_) => {},
    }
}

/// A settled forest is written as the forest itself.
pub proof fn lemma_settled_flat_forest(
    forest: Seq<EntryView>,
    names: Seq<StructReferenceView>,
    clump: i16,
    parent: Option<ClumpCoordIndex>,
)
    ensures
        spec_flat_forest(spec_settled_forest(forest), names, clump, parent) == spec_flat_forest(
            forest,
            names,
            clump,
            parent,
        ),
    decreases forest,
{
    if forest.len() > 0 {
        let settled = spec_settled_forest(forest);
        lemma_settled_flat_forest(forest.drop_last(), names, clump, parent);
        lemma_settled_flat_tree(forest.last(), names, clump);
        assert(settled.drop_last() =~= spec_settled_forest(forest.drop_last()));
        assert(settled.last() == spec_settled_tree(forest.last()));
    }
}

/// Settled entries outside every clump are written as the entries
/// themselves.
pub proof fn lemma_settled_other_flat(entries: Seq<EntryView>, upto: int)
    ensures
        spec_other_flat(spec_settled_forest(entries), upto) == spec_other_flat(entries, upto),
    decreases upto,
{
    lemma_settled_forest_at(entries);
    if 0 < upto <= entries.len() {
        lemma_settled_other_flat(entries, upto - 1);
        lemma_settled_flat_tree(entries[upto - 1], Seq::<StructReferenceView>::empty(), 0i16);
        lemma_settled_forest_at(entries[upto - 1].children);
    }
}

/// A settled clump adds what the clump itself adds.
pub proof fn lemma_settled_add_clump(parts: AnmParts, clump: ClumpView)
    ensures
        spec_add_clump(parts, spec_settled_clump(clump)) == spec_add_clump(parts, clump),
{
    reveal(spec_add_named);
    reveal(spec_add_other);
    lemma_settled_forest_at(clump.root_entries);
    lemma_settled_other_flat(clump.root_entries, clump.root_entries.len() as int);
    match clump.clump_info {
        ClumpInfoView::StructRef(_) => {
            lemma_settled_flat_forest(
                clump.root_entries,
                clump.entry_struct_refs,
                parts.named as i16,
                None,
            );
        },
        ClumpInfoView::NoInfo => {},
    }
}

/// Settled clumps give what the clumps themselves give.
pub proof fn lemma_settled_parts(
    anm: AnmView,
    upto: int,
    infos: Seq<StructInfoView>,
    refs: Seq<StructReferenceView>,
)
    ensures
        spec_anm_parts(spec_settled_anm(anm).clumps, upto, infos, refs) == spec_anm_parts(
            anm.clumps,
            upto,
            infos,
            refs,
        ),
    decreases upto,
{
    if 0 < upto <= anm.clumps.len() {
        lemma_settled_parts(anm, upto - 1, infos, refs);
        match spec_anm_parts(anm.clumps, upto - 1, infos, refs) {
            Ok(parts) => {
                lemma_settled_add_clump(parts, anm.clumps[upto - 1]);
            },
            Err(_) => {},
        }
    }
}

/// A settled animation is written as the animation itself, whatever its
/// identity.
pub proof fn lemma_settled_anm_chunk(
    anm: AnmView,
    info: StructInfoView,
    infos: Seq<StructInfoView>,
    refs: Seq<StructReferenceView>,
)
    ensures
        spec_anm_chunk(AnmView { struct_info: info, ..spec_settled_anm(anm) }, infos, refs)
            == spec_anm_chunk(anm, infos, refs),
{
    reveal(spec_anm_chunk);
    lemma_settled_parts(anm, anm.clumps.len() as int, infos, refs);
}

/// What the clumps seen so far have given, with other tables.
pub open spec fn spec_parts_at(
    parts: AnmParts,
    infos: Seq<StructInfoView>,
    refs: Seq<StructReferenceView>,
) -> AnmParts {
    AnmParts { infos, refs, ..parts }
}

/// A clump adds the same to tables that begin with the tables as it found
/// them and as it left them, and leaves those as they are.
pub proof fn lemma_add_clump_within(
    parts: AnmParts,
    clump: ClumpView,
    infos: Seq<StructInfoView>,
    refs: Seq<StructReferenceView>,
)
    requires
        spec_add_clump(parts, clump) is Ok,
        spec_is_prefix(parts.infos, infos),
        spec_is_prefix(parts.refs, refs),
        spec_is_prefix(spec_add_clump(parts, clump)->Ok_0.infos, infos),
        spec_is_prefix(spec_add_clump(parts, clump)->Ok_0.refs, refs),
        infos.len() <= u32::MAX,
        refs.len() <= u32::MAX,
    ensures
        spec_add_clump(spec_parts_at(parts, infos, refs), clump) == Ok::<AnmParts, NuccError>(
            spec_parts_at(spec_add_clump(parts, clump)->Ok_0, infos, refs),
        ),
{
    reveal(spec_add_named);
    reveal(spec_add_other);
    match clump.clump_info {
        ClumpInfoView::StructRef(name) => {
            let refs1 = spec_interned(parts.refs, name);
            let refs2 = spec_intern_all(refs1, clump.entry_struct_refs);
            let refs3 = spec_intern_all(refs2, clump.model_struct_refs);
            lemma_interned(parts.refs, name);
            lemma_intern_all_grows(refs1, clump.entry_struct_refs);
            lemma_intern_all_grows(refs2, clump.model_struct_refs);
            assert(spec_is_prefix(refs2, refs3));
            lemma_prefix_chain(refs2, refs3, refs);
            assert(spec_is_prefix(refs1, refs2));
            lemma_prefix_chain(refs1, refs2, refs);
            lemma_interned_within(parts.refs, refs, name);
            lemma_intern_all_within(refs1, refs, clump.entry_struct_refs);
            lemma_intern_all_within(refs2, refs, clump.model_struct_refs);
        },
        ClumpInfoView::NoInfo => {
            lemma_intern_all_within(parts.infos, infos, clump.other_entry_struct_infos);
        },
    }
}

/// The clumps of an animation give the same in tables that begin with the
/// tables as they found them and as they left them, and leave those as
/// they are.
pub proof fn lemma_parts_within(
    clumps: Seq<ClumpView>,
    upto: int,
    infos0: Seq<StructInfoView>,
    refs0: Seq<StructReferenceView>,
    infos: Seq<StructInfoView>,
    refs: Seq<StructReferenceView>,
)
    requires
        spec_anm_parts(clumps, upto, infos0, refs0) is Ok,
        spec_is_prefix(infos0, infos),
        spec_is_prefix(refs0, refs),
        spec_is_prefix(spec_anm_parts(clumps, upto, infos0, refs0)->Ok_0.infos, infos),
        spec_is_prefix(spec_anm_parts(clumps, upto, infos0, refs0)->Ok_0.refs, refs),
        infos.len() <= u32::MAX,
        refs.len() <= u32::MAX,
    ensures
        spec_anm_parts(clumps, upto, infos, refs) == Ok::<AnmParts, NuccError>(
            spec_parts_at(spec_anm_parts(clumps, upto, infos0, refs0)->Ok_0, infos, refs),
        ),
    decreases upto,
{
    if 0 < upto <= clumps.len() {
        let before = spec_anm_parts(clumps, upto - 1, infos0, refs0)->Ok_0;
        let after = spec_anm_parts(clumps, upto, infos0, refs0)->Ok_0;
        lemma_add_clump_tables(before, clumps[upto - 1]);
        lemma_prefix_chain(before.infos, after.infos, infos);
        lemma_prefix_chain(before.refs, after.refs, refs);
        lemma_parts_within(clumps, upto - 1, infos0, refs0, infos, refs);
        lemma_add_clump_within(before, clumps[upto - 1], infos, refs);
    }
}

/// An animation is written as the same wire animation in tables that
/// begin with the tables as it found them and as it left them, and leaves
/// those as they are.
pub proof fn lemma_anm_chunk_within(
    anm: AnmView,
    infos0: Seq<StructInfoView>,
    refs0: Seq<StructReferenceView>,
    infos: Seq<StructInfoView>,
    refs: Seq<StructReferenceView>,
)
    requires
        spec_anm_chunk(anm, infos0, refs0) is Ok,
        spec_is_prefix(infos0, infos),
        spec_is_prefix(refs0, refs),
        spec_is_prefix(spec_anm_chunk(anm, infos0, refs0)->Ok_0.1, infos),
        spec_is_prefix(spec_anm_chunk(anm, infos0, refs0)->Ok_0.2, refs),
        infos.len() <= u32::MAX,
        refs.len() <= u32::MAX,
    ensures
        spec_anm_chunk(anm, infos, refs) == Ok::<
            (ChunkAnmView, Seq<StructInfoView>, Seq<StructReferenceView>),
            NuccError,
        >((spec_anm_chunk(anm, infos0, refs0)->Ok_0.0, infos, refs)),
{
    reveal(spec_anm_chunk);
    lemma_parts_within(anm.clumps, anm.clumps.len() as int, infos0, refs0, infos, refs);
}

} // verus!
