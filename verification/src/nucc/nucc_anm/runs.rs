//! What the clumps of an animation are written as, one after another.

use vstd::prelude::*;

use crate::error::NuccError;
use crate::nucc::StructInfoView;
use crate::nucc::StructReferenceView;
use crate::nucc::nucc_anm::clump::ClumpInfoView;
use crate::nucc::nucc_anm::clump::ClumpView;
use crate::nucc::nucc_anm::entry::EntryInfoView;
use crate::nucc::nucc_anm::entry::EntryView;
use crate::nucc::nucc_anm::entry::spec_entry_of;
use crate::nucc::nucc_anm::flatten::spec_flat_forest;
use crate::nucc::nucc_anm::graph::lemma_find_unique;
use crate::nucc::nucc_anm::graph::spec_climbs;
use crate::nucc::nucc_anm::graph::spec_coord_ok;
use crate::nucc::nucc_anm::graph::spec_distinct;
use crate::nucc::nucc_anm::graph::spec_edge_ok;
use crate::nucc::nucc_anm::graph::spec_forest;
use crate::nucc::nucc_anm::graph::spec_has;
use crate::nucc::nucc_anm::graph::spec_is_child;
use crate::nucc::nucc_anm::graph::spec_kids;
use crate::nucc::nucc_anm::graph::spec_other_place;
use crate::nucc::nucc_anm::graph::spec_roots;
use crate::nucc::nucc_anm::graph::spec_single_parent;
use crate::nucc::nucc_anm::graph::spec_well_formed;
use crate::nucc::nucc_anm::order::lemma_climbs_more;
use crate::nucc::nucc_anm::order::lemma_clump_climbs;
use crate::nucc::nucc_anm::order::lemma_distinct_concat;
use crate::nucc::nucc_anm::order::lemma_flat_forest_is;
use crate::nucc::nucc_anm::order::lemma_forest_edges_join;
use crate::nucc::nucc_anm::order::lemma_forest_kids;
use crate::nucc::nucc_anm::order::lemma_forest_nodes;
use crate::nucc::nucc_anm::order::lemma_forest_roots_free;
use crate::nucc::nucc_anm::order::lemma_forest_single_parent;
use crate::nucc::nucc_anm::order::lemma_has_concat;
use crate::nucc::nucc_anm::order::lemma_is_child_concat;
use crate::nucc::nucc_anm::order::lemma_kids_concat;
use crate::nucc::nucc_anm::order::lemma_kids_none;
use crate::nucc::nucc_anm::order::lemma_order_of_nodes;
use crate::nucc::nucc_anm::order::lemma_root_is_placed;
use crate::nucc::nucc_anm::order::lemma_roots_concat;
use crate::nucc::nucc_anm::order::lemma_roots_none;
use crate::nucc::nucc_anm::order::lemma_roots_of_forest;
use crate::nucc::nucc_anm::order::lemma_single_parent_concat;
use crate::nucc::nucc_anm::order::spec_edge_in;
use crate::nucc::nucc_anm::order::spec_forest_edges;
use crate::nucc::nucc_anm::order::spec_forest_nodes;
use crate::nucc::nucc_anm::order::spec_forest_order;
use crate::nucc::nucc_anm::order::spec_joins;
use crate::nucc::nucc_anm::order::spec_place_of;
use crate::nucc::nucc_anm::order::spec_root_places;
use crate::nucc::nucc_anm::order::spec_written_as;
use crate::nucc::nucc_anm::pack::AnmParts;
use crate::nucc::nucc_anm::pack::spec_add_clump;
use crate::nucc::nucc_anm::pack::spec_add_named;
use crate::nucc::nucc_anm::pack::spec_add_other;
use crate::nucc::nucc_anm::pack::spec_anm_parts;
use crate::nucc::nucc_anm::rebuild::lemma_entry_of_chunk_entry;
use crate::nucc::nucc_anm::rebuild::lemma_rebuilt_forest;
use crate::nucc::nucc_anm::rebuild::spec_node_ok;
use crate::nucc::nucc_anm::rebuild::spec_nodes_ok;
use crate::nucc::nucc_anm::rebuild::spec_settled_forest;
use crate::nucc::nucc_anm::spec_below;
use crate::nucc::nucc_anm::spec_coords;
use crate::nucc::nucc_anm::spec_flat;
use crate::nucc::nucc_anm::spec_refs_at;
use crate::nucc_chunk::nucc_chunk_anm::clump::ClumpCoordIndex;
use crate::nucc_chunk::nucc_chunk_anm::clump::ClumpView as ChunkClumpView;
use crate::nucc_chunk::nucc_chunk_anm::clump::ParentChildIndex;
use crate::nucc_chunk::nucc_chunk_anm::entry::EntryView as ChunkEntryView;
use crate::table::lemma_intern_all_grows;
use crate::table::lemma_interned;
use crate::table::lemma_numbers_in_range;
use crate::table::lemma_position;
use crate::table::spec_intern_all;
use crate::table::spec_interned;
use crate::table::spec_is_prefix;
use crate::table::spec_number;
use crate::table::spec_numbers;

verus! {

/// What the trees of the `c`-th clump are written as.
pub open spec fn spec_clump_flat(clumps: Seq<ClumpView>, c: int) -> Result<
    (Seq<ChunkEntryView>, Seq<ParentChildIndex>),
    NuccError,
> {
    spec_flat_forest(clumps[c].root_entries, clumps[c].entry_struct_refs, c as i16, None)
}

/// The wire entries of the clumps from `from` up to `upto`.
pub open spec fn spec_run_entries(clumps: Seq<ClumpView>, from: int, upto: int) -> Seq<
    ChunkEntryView,
>
    decreases upto - from,
{
    if upto <= from {
        seq![]
    } else {
        spec_run_entries(clumps, from, upto - 1) + spec_clump_flat(clumps, upto - 1)->Ok_0.0
    }
}

/// The edges of the clumps from `from` up to `upto`.
pub open spec fn spec_run_edges(clumps: Seq<ClumpView>, from: int, upto: int) -> Seq<
    ParentChildIndex,
>
    decreases upto - from,
{
    if upto <= from {
        seq![]
    } else {
        spec_run_edges(clumps, from, upto - 1) + spec_clump_flat(clumps, upto - 1)->Ok_0.1
    }
}

/// Whether each of the first `upto` clumps has a name.
pub open spec fn spec_all_named(clumps: Seq<ClumpView>, upto: int) -> bool {
    forall|c: int| 0 <= c < upto ==> (#[trigger] clumps[c]).clump_info is StructRef
}

/// The wire clump that a clump with a name is written as, when the table
/// of references holds `refs`.
pub open spec fn spec_wire_clump(refs: Seq<StructReferenceView>, clump: ClumpView) -> ChunkClumpView {
    let name = clump.clump_info->StructRef_0;
    let refs1 = spec_interned(refs, name);
    let refs2 = spec_intern_all(refs1, clump.entry_struct_refs);
    ChunkClumpView {
        clump_index: spec_number(refs, name) as u32,
        bone_material_indices: spec_numbers(refs1, clump.entry_struct_refs),
        model_indices: spec_numbers(refs2, clump.model_struct_refs),
    }
}

/// The table of references after a clump with a name has been written.
pub open spec fn spec_refs_after(refs: Seq<StructReferenceView>, clump: ClumpView) -> Seq<
    StructReferenceView,
> {
    spec_intern_all(
        spec_intern_all(
            spec_interned(refs, clump.clump_info->StructRef_0),
            clump.entry_struct_refs,
        ),
        clump.model_struct_refs,
    )
}

/// What clumps with names give: their entries and edges one after
/// another, one wire clump for each, and nothing for the table of
/// identities.
pub proof fn lemma_parts_run(
    clumps: Seq<ClumpView>,
    upto: int,
    infos: Seq<StructInfoView>,
    refs: Seq<StructReferenceView>,
)
    requires
        0 <= upto <= clumps.len(),
        spec_all_named(clumps, upto),
        spec_anm_parts(clumps, upto, infos, refs) is Ok,
    ensures
        upto <= i16::MAX + 1,
        spec_anm_parts(clumps, upto, infos, refs)->Ok_0.entries == spec_run_entries(clumps, 0, upto),
        spec_anm_parts(clumps, upto, infos, refs)->Ok_0.edges == spec_run_edges(clumps, 0, upto),
        spec_anm_parts(clumps, upto, infos, refs)->Ok_0.named == upto,
        spec_anm_parts(clumps, upto, infos, refs)->Ok_0.clumps.len() == upto,
        !spec_anm_parts(clumps, upto, infos, refs)->Ok_0.has_other,
        spec_anm_parts(clumps, upto, infos, refs)->Ok_0.others == Seq::<u32>::empty(),
        spec_anm_parts(clumps, upto, infos, refs)->Ok_0.infos == infos,
        forall|c: int|
            0 <= c < upto ==> {
                &&& #[trigger] spec_clump_flat(clumps, c) is Ok
                &&& spec_anm_parts(clumps, c, infos, refs) is Ok
                &&& spec_anm_parts(clumps, c + 1, infos, refs) is Ok
                &&& spec_anm_parts(clumps, upto, infos, refs)->Ok_0.clumps[c] == spec_wire_clump(
                    spec_anm_parts(clumps, c, infos, refs)->Ok_0.refs,
                    clumps[c],
                )
                &&& spec_anm_parts(clumps, c + 1, infos, refs)->Ok_0.refs == spec_refs_after(
                    spec_anm_parts(clumps, c, infos, refs)->Ok_0.refs,
                    clumps[c],
                )
                &&& spec_anm_parts(clumps, c + 1, infos, refs)->Ok_0.refs.len() <= u32::MAX
            },
    decreases upto,
{
    reveal(spec_add_named);
    if upto > 0 {
        lemma_parts_run(clumps, upto - 1, infos, refs);
        let before = spec_anm_parts(clumps, upto - 1, infos, refs)->Ok_0;
        let after = spec_anm_parts(clumps, upto, infos, refs)->Ok_0;
        let clump = clumps[upto - 1];
        assert(clump.clump_info is StructRef);
        assert(spec_anm_parts(clumps, upto, infos, refs) == spec_add_clump(before, clump));
        assert forall|c: int| 0 <= c < upto implies {
            &&& #[trigger] spec_clump_flat(clumps, c) is Ok
            &&& spec_anm_parts(clumps, c, infos, refs) is Ok
            &&& spec_anm_parts(clumps, c + 1, infos, refs) is Ok
            &&& after.clumps[c] == spec_wire_clump(
                spec_anm_parts(clumps, c, infos, refs)->Ok_0.refs,
                clumps[c],
            )
            &&& spec_anm_parts(clumps, c + 1, infos, refs)->Ok_0.refs == spec_refs_after(
                spec_anm_parts(clumps, c, infos, refs)->Ok_0.refs,
                clumps[c],
            )
            &&& spec_anm_parts(clumps, c + 1, infos, refs)->Ok_0.refs.len() <= u32::MAX
        } by {
            if c < upto - 1 {
                assert(spec_clump_flat(clumps, c) is Ok);
                assert(after.clumps[c] == before.clumps[c]);
            }
        }
    }
}

/// The entries and edges of a run of clumps are those of its first part
/// and then those of the rest.
pub proof fn lemma_run_split(clumps: Seq<ClumpView>, from: int, mid: int, upto: int)
    requires
        from <= mid <= upto,
    ensures
        spec_run_entries(clumps, from, upto) == spec_run_entries(clumps, from, mid)
            + spec_run_entries(clumps, mid, upto),
        spec_run_edges(clumps, from, upto) == spec_run_edges(clumps, from, mid) + spec_run_edges(
            clumps,
            mid,
            upto,
        ),
    decreases upto - mid,
{
    if mid == upto {
        assert(spec_run_entries(clumps, from, mid) + spec_run_entries(clumps, mid, upto)
            =~= spec_run_entries(clumps, from, upto));
        assert(spec_run_edges(clumps, from, mid) + spec_run_edges(clumps, mid, upto)
            =~= spec_run_edges(clumps, from, upto));
    } else {
        lemma_run_split(clumps, from, mid, upto - 1);
        let last = spec_clump_flat(clumps, upto - 1)->Ok_0;
        assert(spec_run_entries(clumps, from, mid) + (spec_run_entries(clumps, mid, upto - 1)
            + last.0) =~= spec_run_entries(clumps, from, mid) + spec_run_entries(
            clumps,
            mid,
            upto - 1,
        ) + last.0);
        assert(spec_run_edges(clumps, from, mid) + (spec_run_edges(clumps, mid, upto - 1) + last.1)
            =~= spec_run_edges(clumps, from, mid) + spec_run_edges(clumps, mid, upto - 1)
            + last.1);
    }
}

/// What a wire clump holds points at the references of the clump that it
/// was written for, in every table that begins with the table in which
/// they were entered.
pub proof fn lemma_wire_clump_reads(
    refs: Seq<StructReferenceView>,
    clump: ClumpView,
    all: Seq<StructReferenceView>,
)
    requires
        clump.clump_info is StructRef,
        spec_refs_after(refs, clump).len() <= u32::MAX,
        spec_is_prefix(spec_refs_after(refs, clump), all),
    ensures
        spec_wire_clump(refs, clump).clump_index < all.len(),
        all[spec_wire_clump(refs, clump).clump_index as int] == clump.clump_info->StructRef_0,
        spec_below(spec_wire_clump(refs, clump).bone_material_indices, all.len() as int),
        spec_below(spec_wire_clump(refs, clump).model_indices, all.len() as int),
        spec_refs_at(all, spec_wire_clump(refs, clump).bone_material_indices)
            == clump.entry_struct_refs,
        spec_refs_at(all, spec_wire_clump(refs, clump).model_indices) == clump.model_struct_refs,
{
    let name = clump.clump_info->StructRef_0;
    let refs1 = spec_interned(refs, name);
    let refs2 = spec_intern_all(refs1, clump.entry_struct_refs);
    let refs3 = spec_intern_all(refs2, clump.model_struct_refs);
    let wire = spec_wire_clump(refs, clump);
    lemma_interned(refs, name);
    lemma_intern_all_grows(refs1, clump.entry_struct_refs);
    lemma_intern_all_grows(refs2, clump.model_struct_refs);
    lemma_numbers_in_range(refs1, clump.entry_struct_refs);
    lemma_numbers_in_range(refs2, clump.model_struct_refs);
    assert(refs3 == spec_refs_after(refs, clump));
    assert(all[wire.clump_index as int] == refs3[wire.clump_index as int]);
    assert forall|i: int| 0 <= i < wire.bone_material_indices.len() implies (
    #[trigger] wire.bone_material_indices[i]) < all.len() && all[wire.bone_material_indices[i] as int]
        == clump.entry_struct_refs[i] by {
        let n = wire.bone_material_indices[i];
        assert(n == spec_numbers(refs1, clump.entry_struct_refs)[i]);
        assert(refs2[n as int] == clump.entry_struct_refs[i]);
        assert(refs3[n as int] == refs2[n as int]);
        assert(all[n as int] == refs3[n as int]);
    }
    assert forall|i: int| 0 <= i < wire.model_indices.len() implies (
    #[trigger] wire.model_indices[i]) < all.len() && all[wire.model_indices[i] as int]
        == clump.model_struct_refs[i] by {
        let n = wire.model_indices[i];
        assert(n == spec_numbers(refs2, clump.model_struct_refs)[i]);
        assert(refs3[n as int] == clump.model_struct_refs[i]);
        assert(all[n as int] == refs3[n as int]);
    }
    assert(spec_refs_at(all, wire.bone_material_indices) =~= clump.entry_struct_refs);
    assert(spec_refs_at(all, wire.model_indices) =~= clump.model_struct_refs);
}

/// What a clump adds to the tables of the page comes behind what they
/// held.
pub proof fn lemma_add_clump_tables(parts: AnmParts, clump: ClumpView)
    requires
        spec_add_clump(parts, clump) is Ok,
    ensures
        spec_is_prefix(parts.infos, spec_add_clump(parts, clump)->Ok_0.infos),
        spec_is_prefix(parts.refs, spec_add_clump(parts, clump)->Ok_0.refs),
{
    reveal(spec_add_named);
    reveal(spec_add_other);
    match clump.clump_info {
        ClumpInfoView::StructRef(name) => {
            let refs1 = spec_interned(parts.refs, name);
            let refs2 = spec_intern_all(refs1, clump.entry_struct_refs);
            lemma_interned(parts.refs, name);
            lemma_intern_all_grows(refs1, clump.entry_struct_refs);
            lemma_intern_all_grows(refs2, clump.model_struct_refs);
        },
        ClumpInfoView::NoInfo => {
            lemma_intern_all_grows(parts.infos, clump.other_entry_struct_infos);
        },
    }
}

/// The tables of the page after some clumps open the tables after more
/// clumps.
pub proof fn lemma_parts_tables_grow(
    clumps: Seq<ClumpView>,
    from: int,
    upto: int,
    infos: Seq<StructInfoView>,
    refs: Seq<StructReferenceView>,
)
    requires
        0 <= from <= upto <= clumps.len(),
        spec_anm_parts(clumps, upto, infos, refs) is Ok,
    ensures
        spec_anm_parts(clumps, from, infos, refs) is Ok,
        spec_is_prefix(
            spec_anm_parts(clumps, from, infos, refs)->Ok_0.infos,
            spec_anm_parts(clumps, upto, infos, refs)->Ok_0.infos,
        ),
        spec_is_prefix(
            spec_anm_parts(clumps, from, infos, refs)->Ok_0.refs,
            spec_anm_parts(clumps, upto, infos, refs)->Ok_0.refs,
        ),
    decreases upto - from,
{
    if from < upto {
        lemma_parts_tables_grow(clumps, from, upto - 1, infos, refs);
        lemma_add_clump_tables(
            spec_anm_parts(clumps, upto - 1, infos, refs)->Ok_0,
            clumps[upto - 1],
        );
    }
}

/// The places of the `c`-th clump, in the order in which they are written.
pub open spec fn spec_clump_order(clumps: Seq<ClumpView>, c: int) -> Seq<ClumpCoordIndex> {
    spec_forest_order(clumps[c].root_entries, clumps[c].entry_struct_refs, c as i16)
}

/// Whether wire entries lie in the clumps from `from` up to `upto`, each
/// at a slot of its clump, and can be read.
pub open spec fn spec_entries_within(
    clumps: Seq<ClumpView>,
    entries: Seq<ChunkEntryView>,
    from: int,
    upto: int,
) -> bool {
    forall|i: int|
        0 <= i < entries.len() ==> {
            &&& from <= (#[trigger] entries[i]).coord_index.0 < upto
            &&& entries[i].coord_index.1 < clumps[entries[i].coord_index.0 as int].entry_struct_refs.len()
            &&& spec_entry_of(entries[i]) is Ok
        }
}

/// Whether edges join places of one clump each, of the clumps from `from`
/// up to `upto`.
pub open spec fn spec_edges_within(edges: Seq<ParentChildIndex>, from: int, upto: int) -> bool {
    forall|a: int|
        0 <= a < edges.len() ==> from <= (#[trigger] edges[a]).0.0 < upto && edges[a].0.0
            == edges[a].1.0
}

/// What a clump is written as: its nodes, each at its place in the clump
/// and at a slot of the clump, with the edges between them.
pub proof fn lemma_clump_facts(clumps: Seq<ClumpView>, c: int)
    requires
        0 <= c <= i16::MAX,
        spec_clump_flat(clumps, c) is Ok,
    ensures
        spec_coords(spec_clump_flat(clumps, c)->Ok_0.0) == spec_clump_order(clumps, c),
        spec_clump_flat(clumps, c)->Ok_0.1 == spec_forest_edges(
            clumps[c].root_entries,
            clumps[c].entry_struct_refs,
            c as i16,
            None,
        ),
        spec_written_as(
            spec_forest_nodes(clumps[c].root_entries),
            spec_clump_flat(clumps, c)->Ok_0.0,
            clumps[c].entry_struct_refs,
            c as i16,
        ),
        spec_entries_within(clumps, spec_clump_flat(clumps, c)->Ok_0.0, c, c + 1),
        spec_edges_within(spec_clump_flat(clumps, c)->Ok_0.1, c, c + 1),
        forall|a: int|
            0 <= a < spec_clump_flat(clumps, c)->Ok_0.1.len() ==> spec_joins(
                spec_clump_order(clumps, c),
                None,
                #[trigger] spec_clump_flat(clumps, c)->Ok_0.1[a],
            ),
{
    let roots = clumps[c].root_entries;
    let names = clumps[c].entry_struct_refs;
    let none = None::<ClumpCoordIndex>;
    let entries = spec_clump_flat(clumps, c)->Ok_0.0;
    let edges = spec_clump_flat(clumps, c)->Ok_0.1;
    let order = spec_clump_order(clumps, c);
    let nodes = spec_forest_nodes(roots);
    lemma_flat_forest_is(roots, names, c as i16, none);
    lemma_forest_nodes(roots, names, c as i16, none);
    lemma_forest_edges_join(roots, names, c as i16, none);
    assert forall|i: int| 0 <= i < entries.len() implies {
        &&& c <= (#[trigger] entries[i]).coord_index.0 < c + 1
        &&& entries[i].coord_index.1 < clumps[entries[i].coord_index.0 as int].entry_struct_refs.len()
        &&& spec_entry_of(entries[i]) is Ok
    } by {
        assert(spec_coords(entries)[i] == order[i]);
        assert(order[i].0 == c as i16);
        lemma_entry_of_chunk_entry(nodes[i], entries[i].coord_index);
    }
    assert forall|a: int| 0 <= a < edges.len() implies c <= (#[trigger] edges[a]).0.0 < c + 1
        && edges[a].0.0 == edges[a].1.0 by {
        assert(spec_joins(order, none, edges[a]));
        let i = choose|i: int| 0 <= i < order.len() && order[i] == edges[a].0;
        let j = choose|j: int| 0 <= j < order.len() && order[j] == edges[a].1;
        assert(order[i].0 == c as i16);
        assert(order[j].0 == c as i16);
    }
}

/// What a run of clumps is written as lies in these clumps.
pub proof fn lemma_run_within(clumps: Seq<ClumpView>, from: int, upto: int)
    requires
        0 <= from <= upto <= i16::MAX + 1,
        forall|c: int| from <= c < upto ==> #[trigger] spec_clump_flat(clumps, c) is Ok,
    ensures
        spec_entries_within(clumps, spec_run_entries(clumps, from, upto), from, upto),
        spec_edges_within(spec_run_edges(clumps, from, upto), from, upto),
    decreases upto - from,
{
    if from < upto {
        lemma_run_within(clumps, from, upto - 1);
        assert(spec_clump_flat(clumps, upto - 1) is Ok);
        lemma_clump_facts(clumps, upto - 1);
        let e1 = spec_run_entries(clumps, from, upto - 1);
        let e2 = spec_clump_flat(clumps, upto - 1)->Ok_0.0;
        let g1 = spec_run_edges(clumps, from, upto - 1);
        let g2 = spec_clump_flat(clumps, upto - 1)->Ok_0.1;
        let entries = spec_run_entries(clumps, from, upto);
        let edges = spec_run_edges(clumps, from, upto);
        assert forall|i: int| 0 <= i < entries.len() implies {
            &&& from <= (#[trigger] entries[i]).coord_index.0 < upto
            &&& entries[i].coord_index.1 < clumps[entries[i].coord_index.0 as int].entry_struct_refs.len()
            &&& spec_entry_of(entries[i]) is Ok
        } by {
            if i < e1.len() {
                assert(entries[i] == e1[i]);
            } else {
                assert(entries[i] == e2[i - e1.len()]);
            }
        }
        assert forall|a: int| 0 <= a < edges.len() implies from <= (#[trigger] edges[a]).0.0 < upto
            && edges[a].0.0 == edges[a].1.0 by {
            if a < g1.len() {
                assert(edges[a] == g1[a]);
            } else {
                assert(edges[a] == g2[a - g1.len()]);
            }
        }
    }
}

/// Wire entries of which each can be read are read one for one.
pub proof fn lemma_flat_at(entries: Seq<ChunkEntryView>)
    requires
        forall|i: int| 0 <= i < entries.len() ==> spec_entry_of(#[trigger] entries[i]) is Ok,
    ensures
        spec_flat(entries) is Ok,
        spec_flat(entries)->Ok_0.len() == entries.len(),
        forall|i: int|
            0 <= i < entries.len() ==> #[trigger] spec_flat(entries)->Ok_0[i] == spec_entry_of(
                entries[i],
            )->Ok_0,
    decreases entries.len(),
{
    if entries.len() > 0 {
        let rest = entries.drop_last();
        assert forall|i: int| 0 <= i < rest.len() implies spec_entry_of(#[trigger] rest[i]) is Ok by {
            assert(rest[i] == entries[i]);
        }
        lemma_flat_at(rest);
        assert(spec_entry_of(entries[entries.len() - 1]) is Ok);
        assert forall|i: int| 0 <= i < entries.len() implies #[trigger] spec_flat(entries)->Ok_0[i]
            == spec_entry_of(entries[i])->Ok_0 by {
            if i < rest.len() {
                assert(rest[i] == entries[i]);
                assert(spec_flat(entries)->Ok_0[i] == spec_flat(rest)->Ok_0[i]);
            }
        }
    }
}

/// Whether no entry lies in clump `c`.
pub open spec fn spec_entries_off(entries: Seq<ChunkEntryView>, c: int) -> bool {
    forall|i: int| 0 <= i < entries.len() ==> (#[trigger] entries[i]).coord_index.0 != c
}

/// Whether no edge touches clump `c`.
pub open spec fn spec_edges_off(edges: Seq<ParentChildIndex>, c: int) -> bool {
    forall|a: int| 0 <= a < edges.len() ==> (#[trigger] edges[a]).0.0 != c && edges[a].1.0 != c
}

/// Whether each entry can be read.
pub open spec fn spec_readable(entries: Seq<ChunkEntryView>) -> bool {
    forall|i: int| 0 <= i < entries.len() ==> spec_entry_of(#[trigger] entries[i]) is Ok
}

/// Edges that do not touch the clump of a place leave its children and
/// its being a child as they are.
pub proof fn lemma_edges_within(
    before: Seq<ParentChildIndex>,
    own: Seq<ParentChildIndex>,
    after: Seq<ParentChildIndex>,
    place: ClumpCoordIndex,
)
    requires
        spec_edges_off(before, place.0 as int),
        spec_edges_off(after, place.0 as int),
    ensures
        spec_kids(before + own + after, place) == spec_kids(own, place),
        spec_is_child(before + own + after, place) == spec_is_child(own, place),
{
    lemma_kids_concat(before + own, after, place);
    lemma_kids_concat(before, own, place);
    lemma_kids_none(before, place);
    lemma_kids_none(after, place);
    assert(spec_kids(before, place) + spec_kids(own, place) + spec_kids(after, place)
        =~= spec_kids(own, place));
    lemma_is_child_concat(before + own, after, place);
    lemma_is_child_concat(before, own, place);
    if spec_is_child(before, place) {
        let a = choose|a: int| 0 <= a < before.len() && before[a].1 == place;
        assert(before[a].1.0 != place.0 as int);
    }
    if spec_is_child(after, place) {
        let a = choose|a: int| 0 <= a < after.len() && after[a].1 == place;
        assert(after[a].1.0 != place.0 as int);
    }
}

/// Places of other clumps add no roots of a clump.
pub proof fn lemma_roots_within(
    before: Seq<ClumpCoordIndex>,
    own: Seq<ClumpCoordIndex>,
    after: Seq<ClumpCoordIndex>,
    edges: Seq<ParentChildIndex>,
    clump: int,
)
    requires
        forall|i: int| 0 <= i < before.len() ==> (#[trigger] before[i]).0 != clump,
        forall|i: int| 0 <= i < after.len() ==> (#[trigger] after[i]).0 != clump,
    ensures
        spec_roots(before + own + after, edges, clump) == spec_roots(own, edges, clump),
{
    lemma_roots_concat(before + own, after, edges, clump);
    lemma_roots_concat(before, own, edges, clump);
    lemma_roots_none(before, edges, clump);
    lemma_roots_none(after, edges, clump);
    assert(spec_roots(before, edges, clump) + spec_roots(own, edges, clump) + spec_roots(
        after,
        edges,
        clump,
    ) =~= spec_roots(own, edges, clump));
}

/// The places of two runs of entries are the places of the first and then
/// the places of the second.
pub proof fn lemma_coords_concat(a: Seq<ChunkEntryView>, b: Seq<ChunkEntryView>)
    ensures
        spec_coords(a + b) == spec_coords(a) + spec_coords(b),
{
    assert(spec_coords(a + b) =~= spec_coords(a) + spec_coords(b));
}

/// Among entries and edges of other clumps, every node of a clump is
/// found again in what is read from what the clump is written as, and its
/// roots are the roots of its trees.
pub proof fn lemma_clump_found(
    clumps: Seq<ClumpView>,
    c: int,
    entries_before: Seq<ChunkEntryView>,
    edges_before: Seq<ParentChildIndex>,
    entries_after: Seq<ChunkEntryView>,
    edges_after: Seq<ParentChildIndex>,
)
    requires
        0 <= c <= i16::MAX,
        spec_clump_flat(clumps, c) is Ok,
        spec_entries_off(entries_before, c),
        spec_entries_off(entries_after, c),
        spec_edges_off(edges_before, c),
        spec_edges_off(edges_after, c),
        spec_readable(entries_before),
        spec_readable(entries_after),
        spec_distinct(
            spec_coords(entries_before + spec_clump_flat(clumps, c)->Ok_0.0 + entries_after),
        ),
    ensures
        spec_flat(entries_before + spec_clump_flat(clumps, c)->Ok_0.0 + entries_after) is Ok,
        spec_nodes_ok(
            spec_flat(entries_before + spec_clump_flat(clumps, c)->Ok_0.0 + entries_after)->Ok_0,
            spec_coords(entries_before + spec_clump_flat(clumps, c)->Ok_0.0 + entries_after),
            edges_before + spec_clump_flat(clumps, c)->Ok_0.1 + edges_after,
            clumps[c].entry_struct_refs,
            clumps[c].entry_struct_refs,
            c as i16,
            spec_forest_nodes(clumps[c].root_entries),
        ),
        spec_roots(
            spec_coords(entries_before + spec_clump_flat(clumps, c)->Ok_0.0 + entries_after),
            edges_before + spec_clump_flat(clumps, c)->Ok_0.1 + edges_after,
            c,
        ) == spec_root_places(clumps[c].root_entries, clumps[c].entry_struct_refs, c as i16),
        spec_forest_nodes(clumps[c].root_entries).len() <= (entries_before + spec_clump_flat(
            clumps,
            c,
        )->Ok_0.0 + entries_after).len(),
        spec_distinct(spec_clump_order(clumps, c)),
{
    let roots = clumps[c].root_entries;
    let names = clumps[c].entry_struct_refs;
    let clump = c as i16;
    let none = None::<ClumpCoordIndex>;
    let own = spec_clump_flat(clumps, c)->Ok_0.0;
    let own_edges = spec_clump_flat(clumps, c)->Ok_0.1;
    let entries = entries_before + own + entries_after;
    let edges = edges_before + own_edges + edges_after;
    let coords = spec_coords(entries);
    let order = spec_clump_order(clumps, c);
    let nodes = spec_forest_nodes(roots);
    lemma_clump_facts(clumps, c);
    lemma_coords_concat(entries_before + own, entries_after);
    lemma_coords_concat(entries_before, own);
    lemma_distinct_concat(spec_coords(entries_before) + order, spec_coords(entries_after));
    lemma_distinct_concat(spec_coords(entries_before), order);
    assert forall|i: int| 0 <= i < entries.len() implies spec_entry_of(#[trigger] entries[i]) is Ok by {
        if i < entries_before.len() {
            assert(entries[i] == entries_before[i]);
        } else if i < entries_before.len() + own.len() {
            assert(entries[i] == own[i - entries_before.len()]);
        } else {
            assert(entries[i] == entries_after[i - entries_before.len() - own.len()]);
        }
    }
    lemma_flat_at(entries);
    let flat = spec_flat(entries)->Ok_0;
    lemma_forest_kids(roots, names, clump, none);
    lemma_order_of_nodes(roots, names, clump);
    assert forall|i: int| 0 <= i < nodes.len() implies spec_node_ok(
        flat,
        coords,
        edges,
        names,
        names,
        clump,
        #[trigger] nodes[i],
    ) by {
        let node = nodes[i];
        let place = spec_place_of(node, names, clump);
        assert(order[i] == place);
        assert(place.0 == clump);
        lemma_edges_within(edges_before, own_edges, edges_after, place);
        let k = entries_before.len() + i;
        assert(entries[k] == own[i]);
        assert(coords[k] == place);
        lemma_find_unique(coords, k);
        lemma_entry_of_chunk_entry(node, place);
        assert(flat[k] == spec_entry_of(entries[k])->Ok_0);
        match node.entry_info {
            EntryInfoView::StructRef(reference) => {
                lemma_position(names, reference);
            },
            EntryInfoView::StructInfo(_) => {},
        }
    }
    lemma_forest_roots_free(roots, names, clump);
    assert forall|k: int| 0 <= k < roots.len() implies (#[trigger] spec_place_of(
        roots[k],
        names,
        clump,
    )).0 == clump && !spec_is_child(edges, spec_place_of(roots[k], names, clump)) by {
        let place = spec_place_of(roots[k], names, clump);
        lemma_root_is_placed(roots, names, clump, k);
        let i = choose|i: int| 0 <= i < order.len() && order[i] == place;
        assert(order[i].0 == clump);
        lemma_edges_within(edges_before, own_edges, edges_after, place);
    }
    assert forall|k: int, j: int|
        0 <= k < roots.len() && 0 <= j < spec_forest_order(
            roots[k].children,
            names,
            clump,
        ).len() implies spec_is_child(
        edges,
        #[trigger] spec_forest_order(roots[k].children, names, clump)[j],
    ) by {
        let place = spec_forest_order(roots[k].children, names, clump)[j];
        assert(spec_is_child(own_edges, place));
        let a = choose|a: int| 0 <= a < own_edges.len() && own_edges[a].1 == place;
        assert(own_edges[a].1.0 == c);
        lemma_edges_within(edges_before, own_edges, edges_after, place);
    }
    lemma_roots_of_forest(roots, names, clump, edges);
    lemma_roots_within(
        spec_coords(entries_before),
        order,
        spec_coords(entries_after),
        edges,
        c,
    );
}

/// A run of clumps is written as what comes before one of them, then
/// that clump, then what comes after it; the clump is touched by nothing
/// before or after it.
pub proof fn lemma_run_around(clumps: Seq<ClumpView>, c: int, upto: int)
    requires
        0 <= c < upto <= i16::MAX + 1,
        forall|k: int| 0 <= k < upto ==> #[trigger] spec_clump_flat(clumps, k) is Ok,
    ensures
        spec_run_entries(clumps, 0, upto) == spec_run_entries(clumps, 0, c) + spec_clump_flat(
            clumps,
            c,
        )->Ok_0.0 + spec_run_entries(clumps, c + 1, upto),
        spec_run_edges(clumps, 0, upto) == spec_run_edges(clumps, 0, c) + spec_clump_flat(
            clumps,
            c,
        )->Ok_0.1 + spec_run_edges(clumps, c + 1, upto),
        spec_entries_off(spec_run_entries(clumps, 0, c), c),
        spec_entries_off(spec_run_entries(clumps, c + 1, upto), c),
        spec_edges_off(spec_run_edges(clumps, 0, c), c),
        spec_edges_off(spec_run_edges(clumps, c + 1, upto), c),
        spec_readable(spec_run_entries(clumps, 0, c)),
        spec_readable(spec_run_entries(clumps, c + 1, upto)),
{
    lemma_run_split(clumps, 0, c + 1, upto);
    lemma_run_split(clumps, 0, c, c + 1);
    assert(spec_run_entries(clumps, c, c) =~= seq![]);
    assert(spec_run_edges(clumps, c, c) =~= seq![]);
    assert(spec_run_entries(clumps, c, c + 1) =~= spec_clump_flat(clumps, c)->Ok_0.0);
    assert(spec_run_edges(clumps, c, c + 1) =~= spec_clump_flat(clumps, c)->Ok_0.1);
    lemma_run_within(clumps, 0, c);
    lemma_run_within(clumps, c + 1, upto);
}

/// Every entry of a run of clumps is an entry of one of them.
pub proof fn lemma_run_member(clumps: Seq<ClumpView>, upto: int, k: int) -> (r: (int, int))
    requires
        0 <= upto,
        0 <= k < spec_run_entries(clumps, 0, upto).len(),
    ensures
        0 <= r.0 < upto,
        0 <= r.1 < spec_clump_flat(clumps, r.0)->Ok_0.0.len(),
        spec_run_entries(clumps, 0, upto)[k] == spec_clump_flat(clumps, r.0)->Ok_0.0[r.1],
    decreases upto,
{
    let front = spec_run_entries(clumps, 0, upto - 1);
    if k < front.len() {
        lemma_run_member(clumps, upto - 1, k)
    } else {
        (upto - 1, k - front.len())
    }
}

/// Every edge of a run of clumps joins two places of the run.
pub proof fn lemma_run_joined(clumps: Seq<ClumpView>, upto: int)
    requires
        0 <= upto <= i16::MAX + 1,
        forall|k: int| 0 <= k < upto ==> #[trigger] spec_clump_flat(clumps, k) is Ok,
    ensures
        forall|a: int|
            0 <= a < spec_run_edges(clumps, 0, upto).len() ==> spec_joins(
                spec_coords(spec_run_entries(clumps, 0, upto)),
                None,
                #[trigger] spec_run_edges(clumps, 0, upto)[a],
            ),
    decreases upto,
{
    if upto > 0 {
        lemma_run_joined(clumps, upto - 1);
        assert(spec_clump_flat(clumps, upto - 1) is Ok);
        lemma_clump_facts(clumps, upto - 1);
        let e1 = spec_run_entries(clumps, 0, upto - 1);
        let e2 = spec_clump_flat(clumps, upto - 1)->Ok_0.0;
        let g1 = spec_run_edges(clumps, 0, upto - 1);
        let g2 = spec_clump_flat(clumps, upto - 1)->Ok_0.1;
        let edges = spec_run_edges(clumps, 0, upto);
        let none = None::<ClumpCoordIndex>;
        lemma_coords_concat(e1, e2);
        assert forall|a: int| 0 <= a < edges.len() implies spec_joins(
            spec_coords(spec_run_entries(clumps, 0, upto)),
            none,
            #[trigger] edges[a],
        ) by {
            lemma_has_concat(spec_coords(e1), spec_coords(e2), edges[a].0);
            lemma_has_concat(spec_coords(e1), spec_coords(e2), edges[a].1);
            if a < g1.len() {
                assert(edges[a] == g1[a]);
                assert(spec_joins(spec_coords(e1), none, g1[a]));
            } else {
                assert(edges[a] == g2[a - g1.len()]);
                assert(spec_joins(spec_coords(e2), none, g2[a - g1.len()]));
            }
        }
    }
}

/// No place is the child of two edges of a run of clumps whose places are
/// all different.
pub proof fn lemma_run_single_parent(clumps: Seq<ClumpView>, upto: int)
    requires
        0 <= upto <= i16::MAX + 1,
        forall|k: int| 0 <= k < upto ==> #[trigger] spec_clump_flat(clumps, k) is Ok,
        spec_distinct(spec_coords(spec_run_entries(clumps, 0, upto))),
    ensures
        spec_single_parent(spec_run_edges(clumps, 0, upto)),
    decreases upto,
{
    if upto > 0 {
        let c = upto - 1;
        assert(spec_clump_flat(clumps, c) is Ok);
        lemma_clump_facts(clumps, c);
        let e1 = spec_run_entries(clumps, 0, c);
        let e2 = spec_clump_flat(clumps, c)->Ok_0.0;
        let g1 = spec_run_edges(clumps, 0, c);
        let g2 = spec_clump_flat(clumps, c)->Ok_0.1;
        lemma_coords_concat(e1, e2);
        lemma_distinct_concat(spec_coords(e1), spec_coords(e2));
        lemma_run_single_parent(clumps, c);
        lemma_forest_single_parent(
            clumps[c].root_entries,
            clumps[c].entry_struct_refs,
            c as i16,
            None,
        );
        lemma_run_within(clumps, 0, c);
        assert forall|i: int, j: int| 0 <= i < g1.len() && 0 <= j < g2.len() implies g1[i].1
            != g2[j].1 by {
            assert(g1[i].1.0 < c);
            assert(g2[j].1.0 == c);
        }
        lemma_single_parent_concat(g1, g2);
    }
}

/// From every place of a clump a root is reached, among edges of other
/// clumps too, where no place is the child of two edges.
pub proof fn lemma_clump_climbs_found(
    clumps: Seq<ClumpView>,
    c: int,
    edges_before: Seq<ParentChildIndex>,
    edges_after: Seq<ParentChildIndex>,
)
    requires
        0 <= c <= i16::MAX,
        spec_clump_flat(clumps, c) is Ok,
        spec_edges_off(edges_before, c),
        spec_edges_off(edges_after, c),
        spec_distinct(spec_clump_order(clumps, c)),
        spec_single_parent(edges_before + spec_clump_flat(clumps, c)->Ok_0.1 + edges_after),
    ensures
        forall|i: int|
            0 <= i < spec_clump_order(clumps, c).len() ==> spec_climbs(
                edges_before + spec_clump_flat(clumps, c)->Ok_0.1 + edges_after,
                #[trigger] spec_clump_order(clumps, c)[i],
                spec_clump_order(clumps, c).len(),
            ),
{
    let roots = clumps[c].root_entries;
    let names = clumps[c].entry_struct_refs;
    let clump = c as i16;
    let own_edges = spec_clump_flat(clumps, c)->Ok_0.1;
    let edges = edges_before + own_edges + edges_after;
    let order = spec_clump_order(clumps, c);
    lemma_clump_facts(clumps, c);
    lemma_forest_roots_free(roots, names, clump);
    assert forall|k: int| 0 <= k < roots.len() implies !spec_is_child(
        edges,
        #[trigger] spec_place_of(roots[k], names, clump),
    ) by {
        let place = spec_place_of(roots[k], names, clump);
        lemma_root_is_placed(roots, names, clump, k);
        let i = choose|i: int| 0 <= i < order.len() && order[i] == place;
        assert(spec_coords(spec_clump_flat(clumps, c)->Ok_0.0)[i] == order[i]);
        assert(place.0 == clump);
        lemma_edges_within(edges_before, own_edges, edges_after, place);
    }
    assert forall|a: int| 0 <= a < own_edges.len() implies spec_edge_in(
        edges,
        #[trigger] own_edges[a],
    ) by {
        assert(edges[edges_before.len() + a] == own_edges[a]);
    }
    lemma_clump_climbs(roots, names, clump, edges);
}

/// From every place of a run of clumps whose places are all different a
/// root is reached in no more steps than the run has places.
pub proof fn lemma_run_climbs(clumps: Seq<ClumpView>, upto: int, k: int)
    requires
        0 <= upto <= i16::MAX + 1,
        forall|c: int| 0 <= c < upto ==> #[trigger] spec_clump_flat(clumps, c) is Ok,
        spec_distinct(spec_coords(spec_run_entries(clumps, 0, upto))),
        0 <= k < spec_run_entries(clumps, 0, upto).len(),
    ensures
        spec_climbs(
            spec_run_edges(clumps, 0, upto),
            spec_run_entries(clumps, 0, upto)[k].coord_index,
            spec_run_entries(clumps, 0, upto).len(),
        ),
{
    let found = lemma_run_member(clumps, upto, k);
    let c = found.0;
    let i = found.1;
    assert(spec_clump_flat(clumps, c) is Ok);
    lemma_run_around(clumps, c, upto);
    lemma_clump_facts(clumps, c);
    lemma_run_single_parent(clumps, upto);
    let before = spec_run_entries(clumps, 0, c);
    let own = spec_clump_flat(clumps, c)->Ok_0.0;
    let after = spec_run_entries(clumps, c + 1, upto);
    let order = spec_clump_order(clumps, c);
    lemma_coords_concat(before + own, after);
    lemma_coords_concat(before, own);
    lemma_distinct_concat(spec_coords(before) + order, spec_coords(after));
    lemma_distinct_concat(spec_coords(before), order);
    lemma_clump_climbs_found(
        clumps,
        c,
        spec_run_edges(clumps, 0, c),
        spec_run_edges(clumps, c + 1, upto),
    );
    assert(spec_coords(own)[i] == order[i]);
    lemma_climbs_more(
        spec_run_edges(clumps, 0, upto),
        order[i],
        order.len(),
        spec_run_entries(clumps, 0, upto).len(),
    );
}

/// The entries and edges that clumps with names are written as, followed
/// by entries outside every clump at the slots of their positions, make a
/// forest where no two entries share a place.
pub proof fn lemma_written_well_formed(
    clumps: Seq<ClumpView>,
    named: int,
    others: Seq<ChunkEntryView>,
    slots: Seq<int>,
)
    requires
        0 <= named <= i16::MAX + 1,
        forall|c: int| 0 <= c < named ==> #[trigger] spec_clump_flat(clumps, c) is Ok,
        others.len() <= u16::MAX,
        forall|i: int|
            0 <= i < others.len() ==> (#[trigger] others[i]).coord_index == spec_other_place(i),
        spec_distinct(spec_coords(spec_run_entries(clumps, 0, named) + others)),
        slots.len() == named,
        forall|c: int| 0 <= c < named ==> #[trigger] slots[c] == clumps[c].entry_struct_refs.len(),
    ensures
        spec_well_formed(
            spec_coords(spec_run_entries(clumps, 0, named) + others),
            spec_run_edges(clumps, 0, named),
            slots,
            others.len() as int,
        ),
{
    let run = spec_run_entries(clumps, 0, named);
    let edges = spec_run_edges(clumps, 0, named);
    let entries = run + others;
    let coords = spec_coords(entries);
    lemma_coords_concat(run, others);
    lemma_distinct_concat(spec_coords(run), spec_coords(others));
    lemma_run_within(clumps, 0, named);
    lemma_run_joined(clumps, named);
    lemma_run_single_parent(clumps, named);
    assert forall|k: int| 0 <= k < coords.len() implies spec_coord_ok(
        #[trigger] coords[k],
        slots,
        others.len() as int,
    ) by {
        if k < run.len() {
            assert(coords[k] == run[k].coord_index);
        } else {
            assert(coords[k] == others[k - run.len()].coord_index);
        }
    }
    assert forall|i: int| 0 <= i < others.len() implies spec_has(
        coords,
        #[trigger] spec_other_place(i),
    ) by {
        assert(coords[run.len() + i] == others[i].coord_index);
    }
    assert forall|a: int| 0 <= a < edges.len() implies spec_edge_ok(coords, #[trigger] edges[a]) by {
        assert(spec_joins(spec_coords(run), None, edges[a]));
        lemma_has_concat(spec_coords(run), spec_coords(others), edges[a].0);
        lemma_has_concat(spec_coords(run), spec_coords(others), edges[a].1);
    }
    assert forall|k: int| 0 <= k < coords.len() implies spec_climbs(
        edges,
        #[trigger] coords[k],
        coords.len(),
    ) by {
        if k < run.len() {
            assert(coords[k] == run[k].coord_index);
            lemma_run_climbs(clumps, named, k);
            lemma_climbs_more(edges, coords[k], run.len(), coords.len());
        } else {
            assert(coords[k] == others[k - run.len()].coord_index);
            if spec_is_child(edges, coords[k]) {
                let a = choose|a: int| 0 <= a < edges.len() && edges[a].1 == coords[k];
                assert(edges[a].1.0 >= 0);
            }
        }
    }
}

/// The trees of a clump with a name are rebuilt, their curves settled,
/// from what the clumps with names and the entries outside every clump are
/// written as.
pub proof fn lemma_named_clump_rebuilt(
    clumps: Seq<ClumpView>,
    named: int,
    others: Seq<ChunkEntryView>,
    c: int,
)
    requires
        0 <= c < named <= i16::MAX + 1,
        forall|k: int| 0 <= k < named ==> #[trigger] spec_clump_flat(clumps, k) is Ok,
        spec_entries_off(others, c),
        spec_readable(others),
        spec_distinct(spec_coords(spec_run_entries(clumps, 0, named) + others)),
    ensures
        spec_flat(spec_run_entries(clumps, 0, named) + others) is Ok,
        spec_forest(
            spec_flat(spec_run_entries(clumps, 0, named) + others)->Ok_0,
            spec_coords(spec_run_entries(clumps, 0, named) + others),
            spec_run_edges(clumps, 0, named),
            clumps[c].entry_struct_refs,
            spec_roots(
                spec_coords(spec_run_entries(clumps, 0, named) + others),
                spec_run_edges(clumps, 0, named),
                c,
            ),
            spec_coords(spec_run_entries(clumps, 0, named) + others).len(),
        ) == Ok::<Seq<EntryView>, NuccError>(spec_settled_forest(clumps[c].root_entries)),
{
    assert(spec_clump_flat(clumps, c) is Ok);
    lemma_run_around(clumps, c, named);
    let before = spec_run_entries(clumps, 0, c);
    let own = spec_clump_flat(clumps, c)->Ok_0.0;
    let after = spec_run_entries(clumps, c + 1, named) + others;
    let entries = spec_run_entries(clumps, 0, named) + others;
    assert(entries =~= before + own + after);
    let edges_before = spec_run_edges(clumps, 0, c);
    let edges_after = spec_run_edges(clumps, c + 1, named);
    assert forall|i: int| 0 <= i < after.len() implies (#[trigger] after[i]).coord_index.0 != c
        && spec_entry_of(after[i]) is Ok by {
        let rest = spec_run_entries(clumps, c + 1, named);
        if i < rest.len() {
            assert(after[i] == rest[i]);
        } else {
            assert(after[i] == others[i - rest.len()]);
        }
    }
    lemma_clump_found(clumps, c, before, edges_before, after, edges_after);
    lemma_rebuilt_forest(
        spec_flat(entries)->Ok_0,
        spec_coords(entries),
        spec_run_edges(clumps, 0, named),
        clumps[c].entry_struct_refs,
        clumps[c].entry_struct_refs,
        c as i16,
        clumps[c].root_entries,
        spec_coords(entries).len(),
    );
}

} // verus!
