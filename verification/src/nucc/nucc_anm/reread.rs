//! That an animation which is written is read back as it was.

use vstd::prelude::*;

use crate::error::NuccError;
use crate::nucc::StructInfoView;
use crate::nucc::StructReferenceView;
use crate::nucc::nucc_anm::AnmView;
use crate::nucc::nucc_anm::clump::ClumpView;
use crate::nucc::nucc_anm::entry::EntryInfoView;
use crate::nucc::nucc_anm::entry::EntryView;
use crate::nucc::nucc_anm::entry::spec_entry_of;
use crate::nucc::nucc_anm::graph::lemma_find_unique;
use crate::nucc::nucc_anm::graph::spec_distinct;
use crate::nucc::nucc_anm::graph::spec_other_place;
use crate::nucc::nucc_anm::lemma_clumps_of;
use crate::nucc::nucc_anm::pack::spec_add_clump;
use crate::nucc::nucc_anm::pack::spec_add_other;
use crate::nucc::nucc_anm::pack::spec_anm_chunk;
use crate::nucc::nucc_anm::pack::spec_anm_parts;
use crate::nucc::nucc_anm::pack::spec_other_flat;
use crate::nucc::nucc_anm::rebuild::lemma_entry_of_chunk_entry;
use crate::nucc::nucc_anm::rebuild::spec_settled_entry;
use crate::nucc::nucc_anm::rebuild::spec_settled_forest;
use crate::nucc::nucc_anm::rebuild::spec_settled_tree;
use crate::nucc::nucc_anm::runs::lemma_flat_at;
use crate::nucc::nucc_anm::runs::lemma_named_clump_rebuilt;
use crate::nucc::nucc_anm::runs::lemma_parts_run;
use crate::nucc::nucc_anm::runs::lemma_parts_tables_grow;
use crate::nucc::nucc_anm::runs::lemma_run_within;
use crate::nucc::nucc_anm::runs::lemma_wire_clump_reads;
use crate::nucc::nucc_anm::runs::lemma_written_well_formed;
use crate::nucc::nucc_anm::runs::spec_all_named;
use crate::nucc::nucc_anm::runs::spec_clump_flat;
use crate::nucc::nucc_anm::runs::spec_entries_off;
use crate::nucc::nucc_anm::runs::spec_readable;
use crate::nucc::nucc_anm::runs::spec_refs_after;
use crate::nucc::nucc_anm::runs::spec_run_edges;
use crate::nucc::nucc_anm::runs::spec_run_entries;
use crate::nucc::nucc_anm::runs::spec_wire_clump;
use crate::nucc::nucc_anm::spec_anm_struct;
use crate::nucc::nucc_anm::spec_below;
use crate::nucc::nucc_anm::spec_clump_of;
use crate::nucc::nucc_anm::spec_clumps_of;
use crate::nucc::nucc_anm::spec_coords;
use crate::nucc::nucc_anm::spec_flat;
use crate::nucc::nucc_anm::spec_indices_ok;
use crate::nucc::nucc_anm::spec_infos_at;
use crate::nucc::nucc_anm::spec_other_clump;
use crate::nucc::nucc_anm::spec_other_entries;
use crate::nucc::nucc_anm::spec_refs_at;
use crate::nucc::nucc_anm::spec_slots;
use crate::nucc_chunk::nucc_chunk_anm::ChunkAnmView;
use crate::nucc_chunk::nucc_chunk_anm::entry::EntryView as ChunkEntryView;
use crate::table::lemma_numbers_in_range;
use crate::table::spec_intern_all;
use crate::table::spec_is_prefix;
use crate::table::spec_numbers;

verus! {

/// How many clumps come before the clump without a name, or how many
/// there are where the last has a name.
pub open spec fn spec_named_count(clumps: Seq<ClumpView>) -> int {
    if clumps.len() > 0 && clumps.last().clump_info is NoInfo {
        clumps.len() - 1
    } else {
        clumps.len() as int
    }
}

/// Whether clumps are laid out as clumps that were read are: those with a
/// name first, each without identities of its own; then at most one
/// without a name, which holds at least one entry, no references, and for
/// each entry the identity that the entry has.
pub open spec fn spec_as_read(clumps: Seq<ClumpView>) -> bool {
    let named = spec_named_count(clumps);
    &&& spec_all_named(clumps, named)
    &&& forall|c: int|
        0 <= c < named ==> (#[trigger] clumps[c]).other_entry_struct_infos.len() == 0
    &&& named < clumps.len() ==> {
        let last = clumps.last();
        &&& last.entry_struct_refs.len() == 0
        &&& last.model_struct_refs.len() == 0
        &&& last.root_entries.len() > 0
        &&& forall|i: int|
            0 <= i < last.root_entries.len() ==> (#[trigger] last.root_entries[i]).entry_info
                == EntryInfoView::StructInfo(last.other_entry_struct_infos[i])
    }
}

/// A clump with the curves of every entry settled.
pub open spec fn spec_settled_clump(clump: ClumpView) -> ClumpView {
    ClumpView { root_entries: spec_settled_forest(clump.root_entries), ..clump }
}

/// An animation as it is read back: without an identity, and with the
/// curves of every entry settled.
pub open spec fn spec_settled_anm(anm: AnmView) -> AnmView {
    AnmView {
        struct_info: StructInfoView { chunk_name: seq![], file_path: seq![], chunk_type: seq![] },
        clumps: Seq::new(anm.clumps.len(), |c: int| spec_settled_clump(anm.clumps[c])),
        ..anm
    }
}

/// The wire entries that the clump without a name is written as, if there
/// is one.
pub open spec fn spec_others_of(clumps: Seq<ClumpView>) -> Seq<ChunkEntryView> {
    if spec_named_count(clumps) < clumps.len() {
        spec_other_flat(clumps.last().root_entries, clumps.last().root_entries.len() as int)->Ok_0
    } else {
        seq![]
    }
}

/// The entries outside every clump are written one for one, each at the
/// slot of its position, and read back settled.
pub proof fn lemma_other_flat_is(entries: Seq<EntryView>, upto: int)
    requires
        0 <= upto <= entries.len(),
        spec_other_flat(entries, upto) is Ok,
    ensures
        spec_other_flat(entries, upto)->Ok_0.len() == upto,
        forall|i: int|
            0 <= i < upto ==> {
                &&& (#[trigger] spec_other_flat(entries, upto)->Ok_0[i]).coord_index
                    == spec_other_place(i)
                &&& spec_entry_of(spec_other_flat(entries, upto)->Ok_0[i]) == Ok::<
                    EntryView,
                    NuccError,
                >(spec_settled_entry(entries[i]))
                &&& entries[i].children.len() == 0
            },
    decreases upto,
{
    if upto > 0 {
        lemma_other_flat_is(entries, upto - 1);
        lemma_entry_of_chunk_entry(entries[upto - 1], spec_other_place(upto - 1));
        let all = spec_other_flat(entries, upto)->Ok_0;
        let front = spec_other_flat(entries, upto - 1)->Ok_0;
        assert forall|i: int| 0 <= i < upto implies {
            &&& (#[trigger] all[i]).coord_index == spec_other_place(i)
            &&& spec_entry_of(all[i]) == Ok::<EntryView, NuccError>(spec_settled_entry(entries[i]))
            &&& entries[i].children.len() == 0
        } by {
            if i < upto - 1 {
                assert(all[i] == front[i]);
            }
        }
    }
}

/// What an animation that is laid out as one that was read is written as:
/// the entries of its clumps with a name, one clump after another, then
/// the entries of the clump without a name; the edges of the former; one
/// wire clump for each clump with a name; and the numbers of the
/// identities of the clump without a name.
pub proof fn lemma_written_lists(
    anm: AnmView,
    infos: Seq<StructInfoView>,
    refs: Seq<StructReferenceView>,
)
    requires
        spec_as_read(anm.clumps),
        spec_anm_chunk(anm, infos, refs) is Ok,
    ensures
        spec_named_count(anm.clumps) <= i16::MAX + 1,
        spec_anm_parts(anm.clumps, anm.clumps.len() as int, infos, refs) is Ok,
        spec_anm_chunk(anm, infos, refs)->Ok_0.2 == spec_anm_parts(
            anm.clumps,
            anm.clumps.len() as int,
            infos,
            refs,
        )->Ok_0.refs,
        forall|c: int|
            0 <= c < spec_named_count(anm.clumps) ==> {
                &&& #[trigger] spec_clump_flat(anm.clumps, c) is Ok
                &&& spec_anm_parts(anm.clumps, c, infos, refs) is Ok
                &&& spec_anm_parts(anm.clumps, c + 1, infos, refs) is Ok
                &&& spec_anm_chunk(anm, infos, refs)->Ok_0.0.clumps[c] == spec_wire_clump(
                    spec_anm_parts(anm.clumps, c, infos, refs)->Ok_0.refs,
                    anm.clumps[c],
                )
                &&& spec_anm_parts(anm.clumps, c + 1, infos, refs)->Ok_0.refs == spec_refs_after(
                    spec_anm_parts(anm.clumps, c, infos, refs)->Ok_0.refs,
                    anm.clumps[c],
                )
                &&& spec_anm_parts(anm.clumps, c + 1, infos, refs)->Ok_0.refs.len() <= u32::MAX
            },
        spec_anm_chunk(anm, infos, refs)->Ok_0.0.clumps.len() == spec_named_count(anm.clumps),
        spec_anm_chunk(anm, infos, refs)->Ok_0.0.entries == spec_run_entries(
            anm.clumps,
            0,
            spec_named_count(anm.clumps),
        ) + spec_others_of(anm.clumps),
        spec_anm_chunk(anm, infos, refs)->Ok_0.0.coord_parents == spec_run_edges(
            anm.clumps,
            0,
            spec_named_count(anm.clumps),
        ),
        spec_distinct(spec_coords(spec_anm_chunk(anm, infos, refs)->Ok_0.0.entries)),
        spec_anm_chunk(anm, infos, refs)->Ok_0.0.unk_entry_chunk_indices == Seq::<u32>::empty(),
        spec_anm_chunk(anm, infos, refs)->Ok_0.0.version == anm.version,
        spec_anm_chunk(anm, infos, refs)->Ok_0.0.frame_count == anm.frame_count,
        spec_anm_chunk(anm, infos, refs)->Ok_0.0.frame_size == anm.frame_size,
        spec_named_count(anm.clumps) == anm.clumps.len() ==> {
            &&& spec_anm_chunk(anm, infos, refs)->Ok_0.0.other_entry_chunk_indices == Seq::<
                u32,
            >::empty()
            &&& spec_anm_chunk(anm, infos, refs)->Ok_0.1 == infos
        },
        spec_named_count(anm.clumps) < anm.clumps.len() ==> {
            let last = anm.clumps.last();
            &&& spec_anm_chunk(anm, infos, refs)->Ok_0.0.other_entry_chunk_indices == spec_numbers(
                infos,
                last.other_entry_struct_infos,
            )
            &&& spec_anm_chunk(anm, infos, refs)->Ok_0.1 == spec_intern_all(
                infos,
                last.other_entry_struct_infos,
            )
            &&& spec_anm_chunk(anm, infos, refs)->Ok_0.1.len() <= u32::MAX
            &&& last.root_entries.len() == last.other_entry_struct_infos.len()
            &&& last.root_entries.len() <= u16::MAX
            &&& spec_other_flat(last.root_entries, last.root_entries.len() as int) is Ok
        },
{
    reveal(spec_anm_chunk);
    reveal(spec_add_other);
    let named = spec_named_count(anm.clumps);
    let all = anm.clumps.len() as int;
    if named < all {
        assert(spec_anm_parts(anm.clumps, all, infos, refs) == spec_add_clump(
            spec_anm_parts(anm.clumps, named, infos, refs)->Ok_0,
            anm.clumps[named],
        ));
    }
    lemma_parts_run(anm.clumps, named, infos, refs);
}

/// What the entries of the clump without a name are written as: each
/// at the slot of its position and in no clump, to be read back settled.
pub proof fn lemma_others_of(clumps: Seq<ClumpView>)
    requires
        spec_named_count(clumps) < clumps.len() ==> spec_other_flat(
            clumps.last().root_entries,
            clumps.last().root_entries.len() as int,
        ) is Ok,
    ensures
        spec_readable(spec_others_of(clumps)),
        forall|c: int| 0 <= c ==> spec_entries_off(spec_others_of(clumps), c),
        forall|i: int|
            0 <= i < spec_others_of(clumps).len() ==> (#[trigger] spec_others_of(
                clumps,
            )[i]).coord_index == spec_other_place(i),
        spec_named_count(clumps) < clumps.len() ==> spec_others_of(clumps).len()
            == clumps.last().root_entries.len(),
        spec_named_count(clumps) == clumps.len() ==> spec_others_of(clumps).len() == 0,
{
    if spec_named_count(clumps) < clumps.len() {
        lemma_other_flat_is(clumps.last().root_entries, clumps.last().root_entries.len() as int);
    }
}

/// The trees of a settled forest are the settled trees of the forest.
pub proof fn lemma_settled_forest_at(forest: Seq<EntryView>)
    ensures
        spec_settled_forest(forest).len() == forest.len(),
        forall|i: int|
            0 <= i < forest.len() ==> #[trigger] spec_settled_forest(forest)[i]
                == spec_settled_tree(forest[i]),
    decreases forest.len(),
{
    if forest.len() > 0 {
        lemma_settled_forest_at(forest.drop_last());
        assert forall|i: int| 0 <= i < forest.len() implies #[trigger] spec_settled_forest(
            forest,
        )[i] == spec_settled_tree(forest[i]) by {
            if i < forest.len() - 1 {
                assert(forest.drop_last()[i] == forest[i]);
            }
        }
    }
}

/// Every index that a written animation holds points into the tables of
/// the page, in every pair of tables that begin with the tables as the
/// animation left them.
pub proof fn lemma_written_indices_ok(
    anm: AnmView,
    infos0: Seq<StructInfoView>,
    refs0: Seq<StructReferenceView>,
    infos: Seq<StructInfoView>,
    refs: Seq<StructReferenceView>,
)
    requires
        spec_as_read(anm.clumps),
        spec_anm_chunk(anm, infos0, refs0) is Ok,
        spec_is_prefix(spec_anm_chunk(anm, infos0, refs0)->Ok_0.1, infos),
        spec_is_prefix(spec_anm_chunk(anm, infos0, refs0)->Ok_0.2, refs),
    ensures
        spec_indices_ok(
            spec_anm_chunk(anm, infos0, refs0)->Ok_0.0,
            infos.len() as int,
            refs.len() as int,
        ),
        forall|c: int|
            0 <= c < spec_named_count(anm.clumps) ==> {
                let wire = #[trigger] spec_anm_chunk(anm, infos0, refs0)->Ok_0.0.clumps[c];
                &&& refs[wire.clump_index as int] == anm.clumps[c].clump_info->StructRef_0
                &&& spec_refs_at(refs, wire.bone_material_indices)
                    == anm.clumps[c].entry_struct_refs
                &&& spec_refs_at(refs, wire.model_indices) == anm.clumps[c].model_struct_refs
            },
        spec_named_count(anm.clumps) < anm.clumps.len() ==> spec_infos_at(
            infos,
            spec_anm_chunk(anm, infos0, refs0)->Ok_0.0.other_entry_chunk_indices,
        ) == anm.clumps.last().other_entry_struct_infos,
{
    lemma_written_lists(anm, infos0, refs0);
    let named = spec_named_count(anm.clumps);
    let all = anm.clumps.len() as int;
    let written = spec_anm_chunk(anm, infos0, refs0)->Ok_0;
    let chunk = written.0;
    assert forall|c: int| 0 <= c < named implies {
        let wire = #[trigger] chunk.clumps[c];
        &&& wire.clump_index < refs.len()
        &&& spec_below(wire.bone_material_indices, refs.len() as int)
        &&& spec_below(wire.model_indices, refs.len() as int)
        &&& refs[wire.clump_index as int] == anm.clumps[c].clump_info->StructRef_0
        &&& spec_refs_at(refs, wire.bone_material_indices) == anm.clumps[c].entry_struct_refs
        &&& spec_refs_at(refs, wire.model_indices) == anm.clumps[c].model_struct_refs
    } by {
        assert(spec_clump_flat(anm.clumps, c) is Ok);
        lemma_parts_tables_grow(anm.clumps, c + 1, all, infos0, refs0);
        let before = spec_anm_parts(anm.clumps, c, infos0, refs0)->Ok_0.refs;
        let after = spec_anm_parts(anm.clumps, c + 1, infos0, refs0)->Ok_0.refs;
        assert(spec_is_prefix(after, refs)) by {
            assert forall|j: int| 0 <= j < after.len() implies after[j] == refs[j] by {
                assert(after[j] == written.2[j]);
            }
        }
        assert(anm.clumps[c].clump_info is StructRef);
        lemma_wire_clump_reads(before, anm.clumps[c], refs);
    }
    if named < all {
        let last = anm.clumps.last();
        lemma_numbers_in_range(infos0, last.other_entry_struct_infos);
        let indices = chunk.other_entry_chunk_indices;
        assert forall|i: int| 0 <= i < indices.len() implies (#[trigger] indices[i]) < infos.len()
            && infos[indices[i] as int] == last.other_entry_struct_infos[i] by {
            assert(written.1[indices[i] as int] == last.other_entry_struct_infos[i]);
        }
        assert(spec_infos_at(infos, indices) =~= last.other_entry_struct_infos);
    }
}

/// The first `upto` clumps of a written animation are read back as they
/// were, their curves settled.
pub proof fn lemma_clumps_reread(
    anm: AnmView,
    infos0: Seq<StructInfoView>,
    refs0: Seq<StructReferenceView>,
    infos: Seq<StructInfoView>,
    refs: Seq<StructReferenceView>,
    upto: int,
)
    requires
        spec_as_read(anm.clumps),
        spec_anm_chunk(anm, infos0, refs0) is Ok,
        spec_is_prefix(spec_anm_chunk(anm, infos0, refs0)->Ok_0.1, infos),
        spec_is_prefix(spec_anm_chunk(anm, infos0, refs0)->Ok_0.2, refs),
        0 <= upto <= spec_named_count(anm.clumps),
    ensures
        spec_flat(spec_anm_chunk(anm, infos0, refs0)->Ok_0.0.entries) is Ok,
        spec_clumps_of(
            spec_flat(spec_anm_chunk(anm, infos0, refs0)->Ok_0.0.entries)->Ok_0,
            spec_coords(spec_anm_chunk(anm, infos0, refs0)->Ok_0.0.entries),
            spec_anm_chunk(anm, infos0, refs0)->Ok_0.0.coord_parents,
            refs,
            spec_anm_chunk(anm, infos0, refs0)->Ok_0.0.clumps,
            upto,
        ) == Ok::<Seq<ClumpView>, NuccError>(
            Seq::new(upto as nat, |c: int| spec_settled_clump(anm.clumps[c])),
        ),
    decreases upto,
{
    lemma_written_lists(anm, infos0, refs0);
    lemma_others_of(anm.clumps);
    let named = spec_named_count(anm.clumps);
    let chunk = spec_anm_chunk(anm, infos0, refs0)->Ok_0.0;
    let others = spec_others_of(anm.clumps);
    let run = spec_run_entries(anm.clumps, 0, named);
    lemma_run_within(anm.clumps, 0, named);
    assert forall|i: int| 0 <= i < chunk.entries.len() implies spec_entry_of(
        #[trigger] chunk.entries[i],
    ) is Ok by {
        if i < run.len() {
            assert(chunk.entries[i] == run[i]);
        } else {
            assert(chunk.entries[i] == others[i - run.len()]);
        }
    }
    lemma_flat_at(chunk.entries);
    let flat = spec_flat(chunk.entries)->Ok_0;
    let coords = spec_coords(chunk.entries);
    let edges = chunk.coord_parents;
    let want = Seq::new(upto as nat, |c: int| spec_settled_clump(anm.clumps[c]));
    if upto > 0 {
        let c = upto - 1;
        lemma_clumps_reread(anm, infos0, refs0, infos, refs, c);
        lemma_written_indices_ok(anm, infos0, refs0, infos, refs);
        lemma_named_clump_rebuilt(anm.clumps, named, others, c);
        let wire = chunk.clumps[c];
        let front = Seq::new(c as nat, |k: int| spec_settled_clump(anm.clumps[k]));
        let clump = anm.clumps[c];
        assert(clump.clump_info is StructRef);
        assert(clump.other_entry_struct_infos =~= seq![]);
        assert(spec_clump_of(flat, coords, edges, refs, wire, c) == Ok::<ClumpView, NuccError>(
            spec_settled_clump(clump),
        ));
        assert(front.push(spec_settled_clump(clump)) =~= want);
    } else {
        assert(want =~= seq![]);
    }
}

/// The clump without a name of a written animation is read back as it
/// was, its curves settled.
pub proof fn lemma_other_clump_reread(
    anm: AnmView,
    infos0: Seq<StructInfoView>,
    refs0: Seq<StructReferenceView>,
    infos: Seq<StructInfoView>,
    refs: Seq<StructReferenceView>,
)
    requires
        spec_as_read(anm.clumps),
        spec_anm_chunk(anm, infos0, refs0) is Ok,
        spec_is_prefix(spec_anm_chunk(anm, infos0, refs0)->Ok_0.1, infos),
        spec_is_prefix(spec_anm_chunk(anm, infos0, refs0)->Ok_0.2, refs),
        spec_named_count(anm.clumps) < anm.clumps.len(),
    ensures
        spec_flat(spec_anm_chunk(anm, infos0, refs0)->Ok_0.0.entries) is Ok,
        spec_other_clump(
            spec_flat(spec_anm_chunk(anm, infos0, refs0)->Ok_0.0.entries)->Ok_0,
            spec_coords(spec_anm_chunk(anm, infos0, refs0)->Ok_0.0.entries),
            infos,
            spec_anm_chunk(anm, infos0, refs0)->Ok_0.0.other_entry_chunk_indices,
        ) == spec_settled_clump(anm.clumps.last()),
{
    lemma_written_lists(anm, infos0, refs0);
    lemma_others_of(anm.clumps);
    lemma_written_indices_ok(anm, infos0, refs0, infos, refs);
    lemma_clumps_reread(anm, infos0, refs0, infos, refs, 0);
    let named = spec_named_count(anm.clumps);
    let chunk = spec_anm_chunk(anm, infos0, refs0)->Ok_0.0;
    let others = spec_others_of(anm.clumps);
    let run = spec_run_entries(anm.clumps, 0, named);
    let last = anm.clumps.last();
    let roots = last.root_entries;
    lemma_other_flat_is(roots, roots.len() as int);
    lemma_run_within(anm.clumps, 0, named);
    assert forall|i: int| 0 <= i < chunk.entries.len() implies spec_entry_of(
        #[trigger] chunk.entries[i],
    ) is Ok by {
        if i < run.len() {
            assert(chunk.entries[i] == run[i]);
        } else {
            assert(chunk.entries[i] == others[i - run.len()]);
        }
    }
    lemma_flat_at(chunk.entries);
    let flat = spec_flat(chunk.entries)->Ok_0;
    let coords = spec_coords(chunk.entries);
    let indices = chunk.other_entry_chunk_indices;
    let read = spec_other_entries(flat, coords, infos, indices);
    lemma_settled_forest_at(roots);
    assert(indices.len() == roots.len());
    assert forall|i: int| 0 <= i < roots.len() implies #[trigger] read[i] == spec_settled_tree(
        roots[i],
    ) by {
        let k = run.len() + i;
        assert(chunk.entries[k] == others[i]);
        assert(coords[k] == spec_other_place(i));
        lemma_find_unique(coords, k);
        assert(flat[k] == spec_entry_of(chunk.entries[k])->Ok_0);
        assert(flat[k] == spec_settled_entry(roots[i]));
        assert(spec_infos_at(infos, indices)[i] == last.other_entry_struct_infos[i]);
        assert(roots[i].children.len() == 0);
        assert(spec_settled_forest(roots[i].children) =~= seq![]);
    }
    assert(read =~= spec_settled_forest(roots));
    assert(last.entry_struct_refs =~= seq![]);
    assert(last.model_struct_refs =~= seq![]);
    assert(last.clump_info is NoInfo);
}

/// An animation that is laid out as one that was read, and that can be
/// written, is read back from what it is written as: the same animation,
/// without an identity and with the curves of every entry settled. This
/// holds for every pair of tables that begin with the tables of the page
/// as the animation left them.
pub proof fn lemma_anm_read_of_written(
    anm: AnmView,
    infos0: Seq<StructInfoView>,
    refs0: Seq<StructReferenceView>,
    infos: Seq<StructInfoView>,
    refs: Seq<StructReferenceView>,
)
    requires
        spec_as_read(anm.clumps),
        spec_anm_chunk(anm, infos0, refs0) is Ok,
        spec_is_prefix(spec_anm_chunk(anm, infos0, refs0)->Ok_0.1, infos),
        spec_is_prefix(spec_anm_chunk(anm, infos0, refs0)->Ok_0.2, refs),
    ensures
        spec_anm_struct(spec_anm_chunk(anm, infos0, refs0)->Ok_0.0, infos, refs) == Ok::<
            AnmView,
            NuccError,
        >(spec_settled_anm(anm)),
{
    lemma_written_lists(anm, infos0, refs0);
    lemma_others_of(anm.clumps);
    lemma_written_indices_ok(anm, infos0, refs0, infos, refs);
    let named = spec_named_count(anm.clumps);
    let all = anm.clumps.len() as int;
    let chunk = spec_anm_chunk(anm, infos0, refs0)->Ok_0.0;
    let others = spec_others_of(anm.clumps);
    lemma_clumps_reread(anm, infos0, refs0, infos, refs, named);
    let slots = spec_slots(chunk.clumps);
    assert forall|c: int| 0 <= c < named implies #[trigger] slots[c]
        == anm.clumps[c].entry_struct_refs.len() by {
        assert(spec_clump_flat(anm.clumps, c) is Ok);
        let wire = chunk.clumps[c];
        assert(spec_refs_at(refs, wire.bone_material_indices).len()
            == wire.bone_material_indices.len());
    }
    lemma_written_well_formed(anm.clumps, named, others, slots);
    assert(chunk.other_entry_chunk_indices.len() == others.len()) by {
        if named < all {
            assert(spec_infos_at(infos, chunk.other_entry_chunk_indices).len()
                == chunk.other_entry_chunk_indices.len());
        }
    }
    let flat = spec_flat(chunk.entries)->Ok_0;
    let coords = spec_coords(chunk.entries);
    let front = Seq::new(named as nat, |c: int| spec_settled_clump(anm.clumps[c]));
    let want = spec_settled_anm(anm).clumps;
    if named < all {
        lemma_other_clump_reread(anm, infos0, refs0, infos, refs);
        assert(front.push(spec_settled_clump(anm.clumps.last())) =~= want);
    } else {
        assert(front =~= want);
    }
}

/// An animation that was read is laid out as `spec_as_read` says.
pub proof fn lemma_read_is_as_read(
    chunk: ChunkAnmView,
    infos: Seq<StructInfoView>,
    refs: Seq<StructReferenceView>,
)
    requires
        spec_anm_struct(chunk, infos, refs) is Ok,
    ensures
        spec_as_read(spec_anm_struct(chunk, infos, refs)->Ok_0.clumps),
{
    let flat = spec_flat(chunk.entries)->Ok_0;
    let coords = spec_coords(chunk.entries);
    let edges = chunk.coord_parents;
    let count = chunk.clumps.len() as int;
    let named = spec_clumps_of(flat, coords, edges, refs, chunk.clumps, count)->Ok_0;
    let clumps = spec_anm_struct(chunk, infos, refs)->Ok_0.clumps;
    lemma_clumps_of(flat, coords, edges, refs, chunk.clumps, count);
    assert forall|c: int| 0 <= c < count implies (#[trigger] clumps[c]).clump_info is StructRef
        && clumps[c].other_entry_struct_infos.len() == 0 by {
        assert(clumps[c] == named[c]);
        assert(spec_clump_of(flat, coords, edges, refs, chunk.clumps[c], c) == Ok::<
            ClumpView,
            NuccError,
        >(named[c]));
    }
    if chunk.other_entry_chunk_indices.len() != 0 {
        let last = clumps.last();
        assert(last == spec_other_clump(flat, coords, infos, chunk.other_entry_chunk_indices));
        assert(spec_named_count(clumps) == count);
    } else {
        if count > 0 {
            assert(clumps[count - 1].clump_info is StructRef);
        }
        assert(spec_named_count(clumps) == count);
    }
}

} // verus!
