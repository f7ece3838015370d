//! From an animation back to the wire animation of the file.

use vstd::prelude::*;

use crate::error::NuccError;
use crate::nucc::nucc_anm::clump::Clump;
use crate::nucc::nucc_anm::clump::ClumpInfo;
use crate::nucc::nucc_anm::clump::ClumpInfoView;
use crate::nucc::nucc_anm::clump::ClumpView;
use crate::nucc::nucc_anm::entry::lemma_children_view;
use crate::nucc::nucc_anm::entry::Entry;
use crate::nucc::nucc_anm::entry::EntryView;
use crate::nucc::nucc_anm::flatten::flatten_forest;
use crate::nucc::nucc_anm::flatten::lemma_chunk_entry_sized;
use crate::nucc::nucc_anm::flatten::lemma_flat_forest_sized;
use crate::nucc::nucc_anm::flatten::spec_chunk_entry;
use crate::nucc::nucc_anm::flatten::spec_flat_forest;
use crate::nucc::nucc_anm::graph::index_coords;
use crate::nucc::nucc_anm::graph::spec_distinct;
use crate::nucc::nucc_anm::graph::spec_other_place;
use crate::nucc::nucc_anm::spec_coords;
use crate::nucc::nucc_anm::AnmView;
use crate::nucc::nucc_anm::NuccAnm;
use crate::nucc::views;
use crate::nucc::NuccStructInfo;
use crate::nucc::NuccStructReference;
use crate::nucc::StructInfoView;
use crate::nucc::StructReferenceView;
use crate::nucc_chunk::nucc_chunk_anm::clump::Clump as ChunkClump;
use crate::nucc_chunk::nucc_chunk_anm::clump::ClumpCoordIndex;
use crate::nucc_chunk::nucc_chunk_anm::clump::ClumpView as ChunkClumpView;
use crate::nucc_chunk::nucc_chunk_anm::clump::ParentChildIndex;
use crate::nucc_chunk::nucc_chunk_anm::entry::spec_entry_sized;
use crate::nucc_chunk::nucc_chunk_anm::entry::Entry as ChunkEntry;
use crate::nucc_chunk::nucc_chunk_anm::entry::EntryView as ChunkEntryView;
use crate::nucc_chunk::nucc_chunk_anm::ChunkAnmView;
use crate::nucc_chunk::nucc_chunk_anm::NuccChunkAnm;
use crate::table::lemma_intern_all_grows;
use crate::table::lemma_interned;
use crate::table::spec_intern_all;
use crate::table::spec_is_prefix;
use crate::table::spec_interned;
use crate::table::spec_number;
use crate::table::spec_numbers;
use crate::table::Table;

verus! {

/// What the clumps seen so far have given: wire clumps, the indices of the
/// entries outside every clump, wire entries and edges, the tables of the
/// page as they have grown, how many clumps of the file there were, and
/// whether the clump without a name was among them.
pub struct AnmParts {
    pub clumps: Seq<ChunkClumpView>,
    pub others: Seq<u32>,
    pub entries: Seq<ChunkEntryView>,
    pub edges: Seq<ParentChildIndex>,
    pub infos: Seq<StructInfoView>,
    pub refs: Seq<StructReferenceView>,
    pub named: int,
    pub has_other: bool,
}

/// The wire entries that the entries outside every clump are written as,
/// the first `upto` of them: each at the slot of its position. Such an
/// entry has no children, else `MalformedGraph`. The first entry that fails
/// decides.
pub open spec fn spec_other_flat(entries: Seq<EntryView>, upto: int) -> Result<
    Seq<ChunkEntryView>,
    NuccError,
>
    decreases upto,
{
    if upto <= 0 || upto > entries.len() {
        Ok(seq![])
    } else {
        match spec_other_flat(entries, upto - 1) {
            Err(e) => Err(e),
            Ok(front) => if entries[upto - 1].children.len() != 0 {
                Err(NuccError::MalformedGraph)
            } else {
                match spec_chunk_entry(entries[upto - 1], spec_other_place(upto - 1)) {
                    Err(e) => Err(e),
                    Ok(entry) => Ok(front.push(entry)),
                }
            },
        }
    }
}

/// What a clump of the file adds: its own reference, the references of its
/// bones and materials, and those of its models are entered in the table
/// of references, in this order, and their numbers make the wire clump;
/// its trees are written as entries and edges of the clump with the next
/// free number. More clumps than a place can number, or a table that gets
/// full, are a `CountMismatch`.
#[verifier::opaque]
pub open spec fn spec_add_named(parts: AnmParts, clump: ClumpView, name: StructReferenceView) -> Result<
    AnmParts,
    NuccError,
> {
    let refs1 = spec_interned(parts.refs, name);
    let refs2 = spec_intern_all(refs1, clump.entry_struct_refs);
    let refs3 = spec_intern_all(refs2, clump.model_struct_refs);
    if parts.named > i16::MAX {
        Err(NuccError::CountMismatch)
    } else if refs1.len() > u32::MAX || refs2.len() > u32::MAX || refs3.len() > u32::MAX {
        Err(NuccError::CountMismatch)
    } else {
        match spec_flat_forest(clump.root_entries, clump.entry_struct_refs, parts.named as i16, None) {
            Err(e) => Err(e),
            Ok((entries, edges)) => Ok(
                AnmParts {
                    clumps: parts.clumps.push(
                        ChunkClumpView {
                            clump_index: spec_number(parts.refs, name) as u32,
                            bone_material_indices: spec_numbers(refs1, clump.entry_struct_refs),
                            model_indices: spec_numbers(refs2, clump.model_struct_refs),
                        },
                    ),
                    entries: parts.entries + entries,
                    edges: parts.edges + edges,
                    refs: refs3,
                    named: parts.named + 1,
                    ..parts
                },
            ),
        }
    }
}

/// What the clump without a name adds: the identities of its entries are
/// entered in the table of identities, and the entries are written at the
/// slots of their positions. A second clump without a name, or one with
/// another number of entries than of identities, is a `MalformedGraph`;
/// more entries than a slot can number, or a table that gets full, are a
/// `CountMismatch`.
#[verifier::opaque]
pub open spec fn spec_add_other(parts: AnmParts, clump: ClumpView) -> Result<AnmParts, NuccError> {
    let infos1 = spec_intern_all(parts.infos, clump.other_entry_struct_infos);
    if parts.has_other {
        Err(NuccError::MalformedGraph)
    } else if clump.root_entries.len() != clump.other_entry_struct_infos.len() {
        Err(NuccError::MalformedGraph)
    } else if clump.root_entries.len() > u16::MAX {
        Err(NuccError::CountMismatch)
    } else if infos1.len() > u32::MAX {
        Err(NuccError::CountMismatch)
    } else {
        match spec_other_flat(clump.root_entries, clump.root_entries.len() as int) {
            Err(e) => Err(e),
            Ok(entries) => Ok(
                AnmParts {
                    others: spec_numbers(parts.infos, clump.other_entry_struct_infos),
                    entries: parts.entries + entries,
                    infos: infos1,
                    has_other: true,
                    ..parts
                },
            ),
        }
    }
}

/// What a clump adds.
pub open spec fn spec_add_clump(parts: AnmParts, clump: ClumpView) -> Result<AnmParts, NuccError> {
    match clump.clump_info {
        ClumpInfoView::StructRef(name) => spec_add_named(parts, clump, name),
        ClumpInfoView::NoInfo => spec_add_other(parts, clump),
    }
}

/// What the first `upto` clumps give, starting from the tables `infos` and
/// `refs` of the page; the first clump that fails decides.
pub open spec fn spec_anm_parts(
    clumps: Seq<ClumpView>,
    upto: int,
    infos: Seq<StructInfoView>,
    refs: Seq<StructReferenceView>,
) -> Result<AnmParts, NuccError>
    decreases upto,
{
    if upto <= 0 || upto > clumps.len() {
        Ok(
            AnmParts {
                clumps: seq![],
                others: seq![],
                entries: seq![],
                edges: seq![],
                infos,
                refs,
                named: 0,
                has_other: false,
            },
        )
    } else {
        match spec_anm_parts(clumps, upto - 1, infos, refs) {
            Err(e) => Err(e),
            Ok(parts) => spec_add_clump(parts, clumps[upto - 1]),
        }
    }
}

/// The wire animation that an animation is written as, and the tables of
/// the page as its references and identities leave them. Entries that
/// share a place are a `MalformedGraph`.
#[verifier::opaque]
pub open spec fn spec_anm_chunk(
    anm: AnmView,
    infos: Seq<StructInfoView>,
    refs: Seq<StructReferenceView>,
) -> Result<(ChunkAnmView, Seq<StructInfoView>, Seq<StructReferenceView>), NuccError> {
    match spec_anm_parts(anm.clumps, anm.clumps.len() as int, infos, refs) {
        Err(e) => Err(e),
        Ok(parts) => if !spec_distinct(spec_coords(parts.entries)) {
            Err(NuccError::MalformedGraph)
        } else {
            Ok(
                (
                    ChunkAnmView {
                        version: anm.version,
                        frame_count: anm.frame_count,
                        frame_size: anm.frame_size,
                        unk: 0,
                        clumps: parts.clumps,
                        other_entry_chunk_indices: parts.others,
                        unk_entry_chunk_indices: seq![],
                        coord_parents: parts.edges,
                        entries: parts.entries,
                    },
                    parts.infos,
                    parts.refs,
                ),
            )
        },
    }
}

/// What the clumps add to the tables of the page comes behind what the
/// tables held, and leaves them no longer than a `u32` counts.
pub proof fn lemma_anm_parts_tables(
    clumps: Seq<ClumpView>,
    upto: int,
    infos: Seq<StructInfoView>,
    refs: Seq<StructReferenceView>,
)
    requires
        spec_anm_parts(clumps, upto, infos, refs) is Ok,
        infos.len() <= u32::MAX,
        refs.len() <= u32::MAX,
    ensures
        spec_is_prefix(infos, spec_anm_parts(clumps, upto, infos, refs)->Ok_0.infos),
        spec_is_prefix(refs, spec_anm_parts(clumps, upto, infos, refs)->Ok_0.refs),
        spec_anm_parts(clumps, upto, infos, refs)->Ok_0.infos.len() <= u32::MAX,
        spec_anm_parts(clumps, upto, infos, refs)->Ok_0.refs.len() <= u32::MAX,
    decreases upto,
{
    reveal(spec_add_named);
    reveal(spec_add_other);
    if 0 < upto <= clumps.len() {
        lemma_anm_parts_tables(clumps, upto - 1, infos, refs);
        let parts = spec_anm_parts(clumps, upto - 1, infos, refs)->Ok_0;
        let clump = clumps[upto - 1];
        match clump.clump_info {
            ClumpInfoView::StructRef(name) => {
                let refs1 = spec_interned(parts.refs, name);
                let refs2 = spec_intern_all(refs1, clump.entry_struct_refs);
                lemma_interned(parts.refs, name);
                lemma_intern_all_grows(refs1, clump.entry_struct_refs);
                lemma_intern_all_grows(refs2, clump.model_struct_refs);
            },
            ClumpInfoView::NoInfo => {
                lemma_intern_all_grows(parts.infos, clump.other_entry_struct_infos);
            },
        }
    }
}

/// What an animation adds to the tables of the page comes behind what the
/// tables held, and leaves them no longer than a `u32` counts.
pub proof fn lemma_anm_chunk_tables(
    anm: AnmView,
    infos: Seq<StructInfoView>,
    refs: Seq<StructReferenceView>,
)
    requires
        spec_anm_chunk(anm, infos, refs) is Ok,
        infos.len() <= u32::MAX,
        refs.len() <= u32::MAX,
    ensures
        spec_is_prefix(infos, spec_anm_chunk(anm, infos, refs)->Ok_0.1),
        spec_is_prefix(refs, spec_anm_chunk(anm, infos, refs)->Ok_0.2),
        spec_anm_chunk(anm, infos, refs)->Ok_0.1.len() <= u32::MAX,
        spec_anm_chunk(anm, infos, refs)->Ok_0.2.len() <= u32::MAX,
{
    reveal(spec_anm_chunk);
    lemma_anm_parts_tables(anm.clumps, anm.clumps.len() as int, infos, refs);
}

/// The entries that the entries outside every clump are written as are
/// sized.
pub proof fn lemma_other_flat_sized(entries: Seq<EntryView>, upto: int)
    requires
        0 <= upto <= entries.len(),
        spec_other_flat(entries, upto) is Ok,
    ensures
        spec_other_flat(entries, upto)->Ok_0.len() == upto,
        forall|i: int|
            0 <= i < upto ==> spec_entry_sized(#[trigger] spec_other_flat(entries, upto)->Ok_0[i]),
    decreases upto,
{
    if upto > 0 {
        lemma_other_flat_sized(entries, upto - 1);
        lemma_chunk_entry_sized(entries[upto - 1], spec_other_place(upto - 1));
    }
}

/// The entries that the clumps of an animation are written as are sized.
pub proof fn lemma_anm_parts_sized(
    clumps: Seq<ClumpView>,
    upto: int,
    infos: Seq<StructInfoView>,
    refs: Seq<StructReferenceView>,
)
    requires
        spec_anm_parts(clumps, upto, infos, refs) is Ok,
    ensures
        forall|i: int|
            0 <= i < spec_anm_parts(clumps, upto, infos, refs)->Ok_0.entries.len()
                ==> spec_entry_sized(
                #[trigger] spec_anm_parts(clumps, upto, infos, refs)->Ok_0.entries[i],
            ),
    decreases upto,
{
    reveal(spec_add_named);
    reveal(spec_add_other);
    if 0 < upto <= clumps.len() {
        lemma_anm_parts_sized(clumps, upto - 1, infos, refs);
        let parts = spec_anm_parts(clumps, upto - 1, infos, refs)->Ok_0;
        let after = spec_anm_parts(clumps, upto, infos, refs)->Ok_0;
        let clump = clumps[upto - 1];
        match clump.clump_info {
            ClumpInfoView::StructRef(name) => {
                lemma_flat_forest_sized(
                    clump.root_entries,
                    clump.entry_struct_refs,
                    parts.named as i16,
                    None,
                );
                let added = spec_flat_forest(
                    clump.root_entries,
                    clump.entry_struct_refs,
                    parts.named as i16,
                    None,
                )->Ok_0.0;
                assert forall|i: int| 0 <= i < after.entries.len() implies spec_entry_sized(
                    #[trigger] after.entries[i],
                ) by {
                    if i < parts.entries.len() {
                        assert(after.entries[i] == parts.entries[i]);
                    } else {
                        assert(after.entries[i] == added[i - parts.entries.len()]);
                    }
                }
            },
            ClumpInfoView::NoInfo => {
                lemma_other_flat_sized(clump.root_entries, clump.root_entries.len() as int);
                let added = spec_other_flat(
                    clump.root_entries,
                    clump.root_entries.len() as int,
                )->Ok_0;
                assert forall|i: int| 0 <= i < after.entries.len() implies spec_entry_sized(
                    #[trigger] after.entries[i],
                ) by {
                    if i < parts.entries.len() {
                        assert(after.entries[i] == parts.entries[i]);
                    } else {
                        assert(after.entries[i] == added[i - parts.entries.len()]);
                    }
                }
            },
        }
    }
}

/// The wire animation that an animation is written as can be told from
/// its payload: every curve takes as many bytes as its header announces.
pub proof fn lemma_anm_chunk_sized(
    anm: AnmView,
    infos: Seq<StructInfoView>,
    refs: Seq<StructReferenceView>,
)
    requires
        spec_anm_chunk(anm, infos, refs) is Ok,
    ensures
        forall|i: int|
            0 <= i < spec_anm_chunk(anm, infos, refs)->Ok_0.0.entries.len() ==> spec_entry_sized(
                #[trigger] spec_anm_chunk(anm, infos, refs)->Ok_0.0.entries[i],
            ),
{
    reveal(spec_anm_chunk);
    lemma_anm_parts_sized(anm.clumps, anm.clumps.len() as int, infos, refs);
}

/// When the clumps before the `k`-th can be written and the `k`-th cannot,
/// the run fails as the `k`-th does.
proof fn lemma_anm_parts_err(
    clumps: Seq<ClumpView>,
    upto: int,
    infos: Seq<StructInfoView>,
    refs: Seq<StructReferenceView>,
    k: int,
    e: NuccError,
)
    requires
        0 <= k < upto <= clumps.len(),
        spec_anm_parts(clumps, k + 1, infos, refs) == Err::<AnmParts, NuccError>(e),
    ensures
        spec_anm_parts(clumps, upto, infos, refs) == Err::<AnmParts, NuccError>(e),
    decreases upto,
{
    if k + 1 < upto {
        lemma_anm_parts_err(clumps, upto - 1, infos, refs, k, e);
    }
}

/// When the entries before the `k`-th can be written and the `k`-th
/// cannot, the run fails as the `k`-th does.
proof fn lemma_other_flat_err(entries: Seq<EntryView>, upto: int, k: int, e: NuccError)
    requires
        0 <= k < upto <= entries.len(),
        spec_other_flat(entries, k + 1) == Err::<Seq<ChunkEntryView>, NuccError>(e),
    ensures
        spec_other_flat(entries, upto) == Err::<Seq<ChunkEntryView>, NuccError>(e),
    decreases upto,
{
    if k + 1 < upto {
        lemma_other_flat_err(entries, upto - 1, k, e);
    }
}

/// The lists that a wire animation is put together from, while they grow.
struct Growing {
    clumps: Vec<ChunkClump>,
    others: Vec<u32>,
    entries: Vec<ChunkEntry>,
    edges: Vec<ParentChildIndex>,
    named: usize,
    has_other: bool,
}

impl Growing {
    /// What the lists hold, with the tables of the page.
    spec fn parts(self, infos: Seq<StructInfoView>, refs: Seq<StructReferenceView>) -> AnmParts {
        AnmParts {
            clumps: views(self.clumps@),
            others: self.others@,
            entries: views(self.entries@),
            edges: self.edges@,
            infos,
            refs,
            named: self.named as int,
            has_other: self.has_other,
        }
    }
}

/// Appends the wire entries of the entries outside every clump.
fn flatten_others(others: &Vec<Entry>, entries: &mut Vec<ChunkEntry>) -> (r: Result<(), NuccError>)
    requires
        others.len() <= u16::MAX,
    ensures
        r is Ok ==> spec_other_flat(views(others@), others.len() as int) is Ok && views(
            final(entries)@,
        ) == views(old(entries)@) + spec_other_flat(views(others@), others.len() as int)->Ok_0,
        r matches Err(e) ==> spec_other_flat(views(others@), others.len() as int) == Err::<
            Seq<ChunkEntryView>,
            NuccError,
        >(e),
{
    let ghost start = views(entries@);
    let ghost all = views(others@);
    let mut i: usize = 0;
    assert(start + Seq::<ChunkEntryView>::empty() =~= start);
    while i < others.len()
        invariant
            i <= others.len(),
            others.len() <= u16::MAX,
            all == views(others@),
            spec_other_flat(all, i as int) is Ok,
            views(entries@) == start + spec_other_flat(all, i as int)->Ok_0,
        decreases others.len() - i,
    {
        let ghost before = views(entries@);
        let entry = &others[i];
        assert(all[i as int] == entry@);
        proof {
            lemma_children_view(*entry);
        }
        if entry.children.len() != 0 {
            proof {
                lemma_other_flat_err(
                    all,
                    all.len() as int,
                    i as int,
                    NuccError::MalformedGraph,
                );
            }
            return Err(NuccError::MalformedGraph);
        }
        let wire = match entry.to_chunk(ClumpCoordIndex(-1i16, i as u16)) {
            Ok(w) => w,
            Err(e) => {
                proof {
                    lemma_other_flat_err(all, all.len() as int, i as int, e);
                }
                return Err(e);
            },
        };
        entries.push(wire);
        proof {
            let done = spec_other_flat(all, i as int)->Ok_0;
            assert(views(entries@) =~= before.push(wire@));
            assert(views(entries@) =~= start + done.push(wire@));
        }
        i += 1;
    }
    Ok(())
}

/// Adds a clump of the file to the lists.
fn add_named(
    clump: &Clump,
    name: &NuccStructReference,
    grown: &mut Growing,
    page_struct_references: &mut Table<NuccStructReference>,
    Ghost(infos): Ghost<Seq<StructInfoView>>,
) -> (r: Result<(), NuccError>)
    requires
        old(page_struct_references).wf(),
    ensures
        final(page_struct_references).wf(),
        r is Ok ==> spec_add_named(
            old(grown).parts(infos, old(page_struct_references)@),
            clump@,
            name@,
        ) == Ok::<AnmParts, NuccError>(final(grown).parts(infos, final(page_struct_references)@)),
        r matches Err(e) ==> spec_add_named(
            old(grown).parts(infos, old(page_struct_references)@),
            clump@,
            name@,
        ) == Err::<AnmParts, NuccError>(e),
{
    reveal(spec_add_named);
    let ghost refs0 = page_struct_references@;
    let ghost refs1 = spec_interned(refs0, name@);
    let ghost refs2 = spec_intern_all(refs1, clump@.entry_struct_refs);
    let ghost refs3 = spec_intern_all(refs2, clump@.model_struct_refs);
    proof {
        crate::table::lemma_intern_all_grows(refs1, clump@.entry_struct_refs);
        crate::table::lemma_intern_all_grows(refs2, clump@.model_struct_refs);
        crate::table::lemma_interned(refs0, name@);
    }
    if grown.named > 0x7fff {
        return Err(NuccError::CountMismatch);
    }
    let clump_index = match page_struct_references.intern(name.clone()) {
        Ok(n) => n,
        Err(e) => { return Err(e); },
    };
    let bone_material_indices = match page_struct_references.intern_all(clump.entry_struct_refs()) {
        Ok(v) => v,
        Err(e) => { return Err(e); },
    };
    let model_indices = match page_struct_references.intern_all(clump.model_struct_refs()) {
        Ok(v) => v,
        Err(e) => { return Err(e); },
    };
    let ghost entries_before = views(grown.entries@);
    let ghost clumps_before = views(grown.clumps@);
    match flatten_forest(
        clump.iter(),
        clump.entry_struct_refs(),
        grown.named as i16,
        None,
        &mut grown.entries,
        &mut grown.edges,
    ) {
        Ok(()) => {},
        Err(e) => { return Err(e); },
    }
    let wire = ChunkClump { clump_index, bone_material_indices, model_indices };
    grown.clumps.push(wire);
    assert(views(grown.clumps@) =~= clumps_before.push(wire@));
    grown.named = grown.named + 1;
    Ok(())
}

/// Adds the clump without a name to the lists.
fn add_other(
    clump: &Clump,
    grown: &mut Growing,
    page_struct_infos: &mut Table<NuccStructInfo>,
    Ghost(refs): Ghost<Seq<StructReferenceView>>,
) -> (r: Result<(), NuccError>)
    requires
        old(page_struct_infos).wf(),
    ensures
        final(page_struct_infos).wf(),
        r is Ok ==> spec_add_other(old(grown).parts(old(page_struct_infos)@, refs), clump@)
            == Ok::<AnmParts, NuccError>(final(grown).parts(final(page_struct_infos)@, refs)),
        r matches Err(e) ==> spec_add_other(old(grown).parts(old(page_struct_infos)@, refs), clump@)
            == Err::<AnmParts, NuccError>(e),
{
    reveal(spec_add_other);
    let roots = clump.iter();
    let infos = clump.other_entry_struct_infos();
    assert(views(roots@).len() == roots.len());
    assert(views(infos@).len() == infos.len());
    if grown.has_other {
        return Err(NuccError::MalformedGraph);
    }
    if roots.len() != infos.len() {
        return Err(NuccError::MalformedGraph);
    }
    if roots.len() > 0xffff {
        return Err(NuccError::CountMismatch);
    }
    let others = match page_struct_infos.intern_all(infos) {
        Ok(v) => v,
        Err(e) => { return Err(e); },
    };
    match flatten_others(roots, &mut grown.entries) {
        Ok(()) => {},
        Err(e) => { return Err(e); },
    }
    grown.others = others;
    grown.has_other = true;
    Ok(())
}

/// Adds a clump to the lists.
fn add_clump(
    clump: &Clump,
    grown: &mut Growing,
    page_struct_infos: &mut Table<NuccStructInfo>,
    page_struct_references: &mut Table<NuccStructReference>,
) -> (r: Result<(), NuccError>)
    requires
        old(page_struct_infos).wf(),
        old(page_struct_references).wf(),
    ensures
        final(page_struct_infos).wf(),
        final(page_struct_references).wf(),
        r is Ok ==> spec_add_clump(
            old(grown).parts(old(page_struct_infos)@, old(page_struct_references)@),
            clump@,
        ) == Ok::<AnmParts, NuccError>(
            final(grown).parts(final(page_struct_infos)@, final(page_struct_references)@),
        ),
        r matches Err(e) ==> spec_add_clump(
            old(grown).parts(old(page_struct_infos)@, old(page_struct_references)@),
            clump@,
        ) == Err::<AnmParts, NuccError>(e),
{
    match clump.info() {
        ClumpInfo::StructRef(name) => add_named(
            clump,
            name,
            grown,
            page_struct_references,
            Ghost(page_struct_infos@),
        ),
        ClumpInfo::NoInfo => add_other(
            clump,
            grown,
            page_struct_infos,
            Ghost(page_struct_references@),
        ),
    }
}

impl NuccAnm {
    /// The wire animation that this animation is written as. The
    /// references and identities that it names are entered in the tables of
    /// the page.
    pub fn to_chunk(
        &self,
        page_struct_infos: &mut Table<NuccStructInfo>,
        page_struct_references: &mut Table<NuccStructReference>,
    ) -> (r: Result<NuccChunkAnm, NuccError>)
        requires
            old(page_struct_infos).wf(),
            old(page_struct_references).wf(),
        ensures
            final(page_struct_infos).wf(),
            final(page_struct_references).wf(),
            r matches Ok(chunk) ==> spec_anm_chunk(
                self@,
                old(page_struct_infos)@,
                old(page_struct_references)@,
            ) == Ok::<(ChunkAnmView, Seq<StructInfoView>, Seq<StructReferenceView>), NuccError>(
                (chunk@, final(page_struct_infos)@, final(page_struct_references)@),
            ),
            r matches Err(e) ==> spec_anm_chunk(
                self@,
                old(page_struct_infos)@,
                old(page_struct_references)@,
            ) == Err::<(ChunkAnmView, Seq<StructInfoView>, Seq<StructReferenceView>), NuccError>(
                e,
            ),
    {
        reveal(spec_anm_chunk);
        let ghost infos0 = page_struct_infos@;
        let ghost refs0 = page_struct_references@;
        let ghost all = views(self.clumps@);
        let mut grown = Growing {
            clumps: Vec::new(),
            others: Vec::new(),
            entries: Vec::new(),
            edges: Vec::new(),
            named: 0,
            has_other: false,
        };
        let mut c: usize = 0;
        proof {
            assert(views(grown.clumps@) =~= seq![]);
            assert(views(grown.entries@) =~= seq![]);
            assert(grown.others@ =~= seq![]);
            assert(grown.edges@ =~= seq![]);
        }
        while c < self.clumps.len()
            invariant
                c <= self.clumps.len(),
                all == views(self.clumps@),
                all == self@.clumps,
                infos0 == old(page_struct_infos)@,
                refs0 == old(page_struct_references)@,
                page_struct_infos.wf(),
                page_struct_references.wf(),
                spec_anm_parts(all, c as int, infos0, refs0) == Ok::<AnmParts, NuccError>(
                    grown.parts(page_struct_infos@, page_struct_references@),
                ),
            decreases self.clumps.len() - c,
        {
            let clump = &self.clumps[c];
            assert(all[c as int] == clump@);
            match add_clump(clump, &mut grown, page_struct_infos, page_struct_references) {
                Ok(()) => {},
                Err(e) => {
                    proof {
                        reveal(spec_anm_chunk);
                        assert(spec_anm_parts(all, c + 1, infos0, refs0) == Err::<
                            AnmParts,
                            NuccError,
                        >(e));
                        lemma_anm_parts_err(all, all.len() as int, infos0, refs0, c as int, e);
                    }
                    return Err(e);
                },
            }
            c += 1;
        }
        let mut coords: Vec<ClumpCoordIndex> = Vec::new();
        let mut i: usize = 0;
        while i < grown.entries.len()
            invariant
                i <= grown.entries.len(),
                coords.len() == i,
                forall|j: int| 0 <= j < i ==> coords@[j] == grown.entries@[j].coord_index,
            decreases grown.entries.len() - i,
        {
            coords.push(grown.entries[i].coord_index);
            i += 1;
        }
        assert(coords@ =~= spec_coords(views(grown.entries@)));
        if index_coords(&coords).is_none() {
            return Err(NuccError::MalformedGraph);
        }
        let chunk = NuccChunkAnm {
            version: self.version,
            frame_count: self.frame_count,
            frame_size: self.frame_size,
            unk: 0,
            clumps: grown.clumps,
            other_entry_chunk_indices: grown.others,
            unk_entry_chunk_indices: Vec::new(),
            coord_parents: grown.edges,
            entries: grown.entries,
        };
        assert(chunk@.unk_entry_chunk_indices =~= seq![]);
        Ok(chunk)
    }
}

} // verus!
