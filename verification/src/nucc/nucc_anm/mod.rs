//! Animations with their entries arranged as trees.

pub mod clump;
pub mod curve;
pub mod entry;
pub mod flatten;
pub mod forest;
pub mod graph;
pub mod order;
pub mod pack;
pub mod rebuild;
pub mod reread;
pub mod rewrite;
pub mod runs;

use vstd::prelude::*;

use crate::error::NuccError;
use crate::maps::coord_index_contents;
use crate::maps::CoordIndex;
use crate::nucc::views;
use crate::nucc::NuccInfo;
use crate::nucc::NuccStruct;
use crate::nucc::NuccStructInfo;
use crate::nucc::NuccStructReference;
use crate::nucc::StructInfoView;
use crate::nucc::StructReferenceView;
use crate::nucc_chunk::nucc_chunk_anm::clump::Clump as ChunkClump;
use crate::nucc_chunk::nucc_chunk_anm::clump::ClumpCoordIndex;
use crate::nucc_chunk::nucc_chunk_anm::clump::ClumpView as ChunkClumpView;
use crate::nucc_chunk::nucc_chunk_anm::clump::ParentChildIndex;
use crate::nucc_chunk::nucc_chunk_anm::entry::Entry as ChunkEntry;
use crate::nucc_chunk::nucc_chunk_anm::entry::EntryView as ChunkEntryView;
use crate::nucc_chunk::nucc_chunk_anm::ChunkAnmView;
use crate::nucc_chunk::nucc_chunk_anm::NuccChunkAnm;
use crate::nucc_chunk::NuccChunkType;
use clump::Clump;
use clump::ClumpInfoView;
use clump::ClumpView;
use entry::spec_entry_of;
use entry::spec_preorder;
use entry::Entry;
use entry::EntryInfo;
use entry::EntryInfoView;
use entry::EntryView;
use forest::lemma_clump_holds_its_entries;
use forest::lemma_forest_shape;
use forest::spec_forest_places;
use forest::spec_in;
use forest::spec_nodes_match;
use graph::all_climb;
use graph::spec_coord_ok;
use graph::spec_distinct;
use graph::build_roots;
use graph::coords_ok;
use graph::index_coords;
use graph::lemma_find_unique;
use graph::lemma_kids_are_children;
use graph::lemma_no_roots;
use graph::link;
use graph::others_present;
use graph::spec_find;
use graph::spec_forest;
use graph::spec_has;
use graph::spec_indexes;
use graph::spec_key;
use graph::spec_kids;
use graph::spec_linked;
use graph::spec_other_place;
use graph::spec_places;
use graph::spec_ready;
use graph::spec_roots;
use graph::spec_well_formed;

verus! {

/// An animation: clumps, each with its entries as trees.
#[derive(Debug, PartialEq, Eq)]
pub struct NuccAnm {
    pub struct_info: NuccStructInfo,
    pub version: u16,
    pub frame_count: u32,
    pub frame_size: u32,
    pub clumps: Vec<Clump>,
}

/// A `NuccAnm` as plain values.
pub struct AnmView {
    pub struct_info: StructInfoView,
    pub version: u16,
    pub frame_count: u32,
    pub frame_size: u32,
    pub clumps: Seq<ClumpView>,
}

impl View for NuccAnm {
    type V = AnmView;

    open spec fn view(&self) -> AnmView {
        AnmView {
            struct_info: self.struct_info@,
            version: self.version,
            frame_count: self.frame_count,
            frame_size: self.frame_size,
            clumps: views(self.clumps@),
        }
    }
}

impl NuccInfo for NuccAnm {
    open spec fn spec_struct_info(&self) -> StructInfoView {
        self.struct_info@
    }

    fn struct_info(&self) -> (r: &NuccStructInfo) {
        &self.struct_info
    }

    fn set_struct_info(&mut self, info: NuccStructInfo)
        ensures
            final(self)@ == (AnmView { struct_info: info@, ..old(self)@ }),
    {
        self.struct_info = info;
    }
}

impl NuccStruct for NuccAnm {
    open spec fn spec_chunk_type(&self) -> NuccChunkType {
        NuccChunkType::NuccChunkAnm
    }

    open spec fn spec_version(&self) -> u16 {
        self.version
    }

    fn chunk_type(&self) -> (t: NuccChunkType) {
        NuccChunkType::NuccChunkAnm
    }

    fn version(&self) -> (v: u16) {
        self.version
    }
}

/// The entries that a run of wire entries stands for, each without an
/// identity and without children; the first entry that fails decides.
pub open spec fn spec_flat(entries: Seq<ChunkEntryView>) -> Result<Seq<EntryView>, NuccError>
    decreases entries.len(),
{
    if entries.len() == 0 {
        Ok(seq![])
    } else {
        match spec_flat(entries.drop_last()) {
            Err(e) => Err(e),
            Ok(front) => match spec_entry_of(entries.last()) {
                Err(e) => Err(e),
                Ok(entry) => Ok(front.push(entry)),
            },
        }
    }
}

/// The places of a run of wire entries.
pub open spec fn spec_coords(entries: Seq<ChunkEntryView>) -> Seq<ClumpCoordIndex> {
    Seq::new(entries.len(), |i: int| entries[i].coord_index)
}

/// How many slots each clump has: one for each of its bones and materials.
pub open spec fn spec_slots(clumps: Seq<ChunkClumpView>) -> Seq<int> {
    Seq::new(clumps.len(), |i: int| clumps[i].bone_material_indices.len() as int)
}

/// Whether every number of `indices` is below `bound`.
pub open spec fn spec_below(indices: Seq<u32>, bound: int) -> bool {
    forall|i: int| 0 <= i < indices.len() ==> (#[trigger] indices[i]) < bound
}

/// Whether every index that the animation holds into the page's tables
/// points at an entry of its table: the clumps, their bones, materials and
/// models at a reference, the entries outside every clump at an identity.
/// Of the latter there are no more than a slot number can tell apart.
pub open spec fn spec_indices_ok(chunk: ChunkAnmView, infos: int, refs: int) -> bool {
    &&& chunk.other_entry_chunk_indices.len() <= u16::MAX
    &&& spec_clump_indices_ok(chunk.clumps, refs)
    &&& spec_below(chunk.other_entry_chunk_indices, infos)
}

/// Whether every clump, and each of its bones, materials and models,
/// points at a reference of the page.
pub open spec fn spec_clump_indices_ok(clumps: Seq<ChunkClumpView>, refs: int) -> bool {
    forall|c: int|
        0 <= c < clumps.len() ==> {
            &&& (#[trigger] clumps[c]).clump_index < refs
            &&& spec_below(clumps[c].bone_material_indices, refs)
            &&& spec_below(clumps[c].model_indices, refs)
        }
}

/// The references at `indices`.
pub open spec fn spec_refs_at(refs: Seq<StructReferenceView>, indices: Seq<u32>) -> Seq<
    StructReferenceView,
> {
    Seq::new(indices.len(), |i: int| refs[indices[i] as int])
}

/// The identities at `indices`.
pub open spec fn spec_infos_at(infos: Seq<StructInfoView>, indices: Seq<u32>) -> Seq<
    StructInfoView,
> {
    Seq::new(indices.len(), |i: int| infos[indices[i] as int])
}

/// The clump that the `c`-th wire clump stands for: named by its
/// reference, with the trees of its roots, and the references of its bones,
/// materials and models.
pub open spec fn spec_clump_of(
    flat: Seq<EntryView>,
    coords: Seq<ClumpCoordIndex>,
    edges: Seq<ParentChildIndex>,
    refs: Seq<StructReferenceView>,
    clump: ChunkClumpView,
    c: int,
) -> Result<ClumpView, NuccError> {
    let names = spec_refs_at(refs, clump.bone_material_indices);
    match spec_forest(flat, coords, edges, names, spec_roots(coords, edges, c), coords.len()) {
        Err(e) => Err(e),
        Ok(root_entries) => Ok(
            ClumpView {
                clump_info: ClumpInfoView::StructRef(refs[clump.clump_index as int]),
                root_entries,
                entry_struct_refs: names,
                model_struct_refs: spec_refs_at(refs, clump.model_indices),
                other_entry_struct_infos: seq![],
            },
        ),
    }
}

/// The clumps that the first `upto` wire clumps stand for; the first clump
/// that fails decides.
pub open spec fn spec_clumps_of(
    flat: Seq<EntryView>,
    coords: Seq<ClumpCoordIndex>,
    edges: Seq<ParentChildIndex>,
    refs: Seq<StructReferenceView>,
    clumps: Seq<ChunkClumpView>,
    upto: int,
) -> Result<Seq<ClumpView>, NuccError>
    decreases upto,
{
    if upto <= 0 {
        Ok(seq![])
    } else {
        match spec_clumps_of(flat, coords, edges, refs, clumps, upto - 1) {
            Err(e) => Err(e),
            Ok(front) => match spec_clump_of(
                flat,
                coords,
                edges,
                refs,
                clumps[upto - 1],
                upto - 1,
            ) {
                Err(e) => Err(e),
                Ok(clump) => Ok(front.push(clump)),
            },
        }
    }
}

/// The entries outside every clump, by slot, each named by the identity
/// that the animation lists for its slot.
pub open spec fn spec_other_entries(
    flat: Seq<EntryView>,
    coords: Seq<ClumpCoordIndex>,
    infos: Seq<StructInfoView>,
    indices: Seq<u32>,
) -> Seq<EntryView> {
    Seq::new(
        indices.len(),
        |i: int|
            EntryView {
                entry_info: EntryInfoView::StructInfo(infos[indices[i] as int]),
                children: seq![],
                ..flat[spec_find(coords, spec_other_place(i))]
            },
    )
}

/// The clump without a name that gathers the entries outside every clump.
pub open spec fn spec_other_clump(
    flat: Seq<EntryView>,
    coords: Seq<ClumpCoordIndex>,
    infos: Seq<StructInfoView>,
    indices: Seq<u32>,
) -> ClumpView {
    ClumpView {
        clump_info: ClumpInfoView::NoInfo,
        root_entries: spec_other_entries(flat, coords, infos, indices),
        entry_struct_refs: seq![],
        model_struct_refs: seq![],
        other_entry_struct_infos: spec_infos_at(infos, indices),
    }
}

/// The animation that a wire animation stands for, given the identities
/// and references of its page.
///
/// The entries are converted first, and the first that fails decides.
/// Then the graph is looked at: entries and edges that do not make a
/// forest, two entries at one place and a cycle among them, are a
/// `MalformedGraph`. After that an index that points outside its table is
/// a `CountMismatch`, and last a list of unknown entries that is not empty
/// is an `UnsupportedFeature`. Then each clump
/// gets the trees of its roots: its entries that are no child of an edge,
/// in the order of the entries, those at a slot that the clump does not
/// declare among them, without an identity. The entries outside every
/// clump, if the animation lists any, make a last clump without a name.
/// The animation itself has no identity yet.
pub open spec fn spec_anm_struct(
    chunk: ChunkAnmView,
    infos: Seq<StructInfoView>,
    refs: Seq<StructReferenceView>,
) -> Result<AnmView, NuccError> {
    let coords = spec_coords(chunk.entries);
    let edges = chunk.coord_parents;
    match spec_flat(chunk.entries) {
        Err(e) => Err(e),
        Ok(flat) => {
            if !spec_well_formed(
                coords,
                edges,
                spec_slots(chunk.clumps),
                chunk.other_entry_chunk_indices.len() as int,
            ) {
                Err(NuccError::MalformedGraph)
            } else if !spec_indices_ok(chunk, infos.len() as int, refs.len() as int) {
                Err(NuccError::CountMismatch)
            } else if chunk.unk_entry_chunk_indices.len() != 0 {
                Err(NuccError::UnsupportedFeature)
            } else {
                match spec_clumps_of(
                    flat,
                    coords,
                    edges,
                    refs,
                    chunk.clumps,
                    chunk.clumps.len() as int,
                ) {
                    Err(e) => Err(e),
                    Ok(clumps) => Ok(
                        AnmView {
                            struct_info: StructInfoView {
                                chunk_name: seq![],
                                file_path: seq![],
                                chunk_type: seq![],
                            },
                            version: chunk.version,
                            frame_count: chunk.frame_count,
                            frame_size: chunk.frame_size,
                            clumps: if chunk.other_entry_chunk_indices.len() != 0 {
                                clumps.push(
                                    spec_other_clump(
                                        flat,
                                        coords,
                                        infos,
                                        chunk.other_entry_chunk_indices,
                                    ),
                                )
                            } else {
                                clumps
                            },
                        },
                    ),
                }
            }
        },
    }
}

/// When the entries before the `k`-th convert and the `k`-th does not, the
/// run fails as the `k`-th does.
proof fn lemma_flat_err(entries: Seq<ChunkEntryView>, k: int)
    requires
        0 <= k < entries.len(),
        spec_flat(entries.subrange(0, k)) is Ok,
        spec_entry_of(entries[k]) is Err,
    ensures
        spec_flat(entries) == Err::<Seq<EntryView>, NuccError>(spec_entry_of(entries[k])->Err_0),
    decreases entries.len(),
{
    if k == entries.len() - 1 {
        assert(entries.drop_last() =~= entries.subrange(0, k));
    } else {
        assert(entries.drop_last().subrange(0, k) =~= entries.subrange(0, k));
        lemma_flat_err(entries.drop_last(), k);
    }
}

/// When the clumps before the `k`-th are built and the `k`-th fails, the
/// run fails as the `k`-th does.
proof fn lemma_clumps_of_err(
    flat: Seq<EntryView>,
    coords: Seq<ClumpCoordIndex>,
    edges: Seq<ParentChildIndex>,
    refs: Seq<StructReferenceView>,
    clumps: Seq<ChunkClumpView>,
    upto: int,
    k: int,
)
    requires
        0 <= k < upto,
        spec_clumps_of(flat, coords, edges, refs, clumps, k) is Ok,
        spec_clump_of(flat, coords, edges, refs, clumps[k], k) is Err,
    ensures
        spec_clumps_of(flat, coords, edges, refs, clumps, upto) == Err::<
            Seq<ClumpView>,
            NuccError,
        >(spec_clump_of(flat, coords, edges, refs, clumps[k], k)->Err_0),
    decreases upto,
{
    if k < upto - 1 {
        lemma_clumps_of_err(flat, coords, edges, refs, clumps, upto - 1, k);
    }
}

/// Converts the wire entries; gives the entries and their places.
fn convert_entries(entries: &Vec<ChunkEntry>) -> (r: Result<
    (Vec<Entry>, Vec<ClumpCoordIndex>),
    NuccError,
>)
    ensures
        r matches Ok((flat, coords)) ==> spec_flat(views(entries@)) == Ok::<
            Seq<EntryView>,
            NuccError,
        >(views(flat@)) && coords@ == spec_coords(views(entries@)) && flat.len() == entries.len(),
        r matches Err(e) ==> spec_flat(views(entries@)) == Err::<Seq<EntryView>, NuccError>(e),
{
    let mut flat: Vec<Entry> = Vec::new();
    let mut coords: Vec<ClumpCoordIndex> = Vec::new();
    let mut k: usize = 0;
    proof {
        assert(views(entries@).subrange(0, 0) =~= seq![]);
        assert(views(flat@) =~= seq![]);
    }
    while k < entries.len()
        invariant
            k <= entries.len(),
            flat.len() == k,
            coords.len() == k,
            forall|j: int| 0 <= j < k ==> coords@[j] == entries@[j].coord_index,
            spec_flat(views(entries@).subrange(0, k as int)) == Ok::<Seq<EntryView>, NuccError>(
                views(flat@),
            ),
        decreases entries.len() - k,
    {
        let ghost before = views(flat@);
        let ghost next = views(entries@).subrange(0, k + 1);
        proof {
            assert(next.drop_last() =~= views(entries@).subrange(0, k as int));
            assert(next.last() == entries@[k as int]@);
        }
        let entry = match Entry::from_chunk(&entries[k]) {
            Ok(e) => e,
            Err(e) => {
                proof {
                    lemma_flat_err(views(entries@), k as int);
                }
                return Err(e);
            },
        };
        flat.push(entry);
        assert(views(flat@) =~= before.push(entry@));
        coords.push(entries[k].coord_index);
        k += 1;
    }
    assert(views(entries@).subrange(0, entries.len() as int) =~= views(entries@));
    assert(coords@ =~= spec_coords(views(entries@)));
    Ok((flat, coords))
}

/// Whether every number of `indices` is below `bound`.
fn below(indices: &Vec<u32>, bound: usize) -> (r: bool)
    ensures
        r == spec_below(indices@, bound as int),
{
    let mut i: usize = 0;
    while i < indices.len()
        invariant
            i <= indices.len(),
            forall|j: int| 0 <= j < i ==> (#[trigger] indices@[j]) < bound,
        decreases indices.len() - i,
    {
        if indices[i] as usize >= bound {
            return false;
        }
        i += 1;
    }
    true
}

/// Whether every index that the animation holds into the page's tables
/// points at an entry of its table.
fn indices_ok(chunk: &NuccChunkAnm, infos: usize, refs: usize) -> (r: bool)
    ensures
        r == spec_indices_ok(chunk@, infos as int, refs as int),
{
    let mut c: usize = 0;
    while c < chunk.clumps.len()
        invariant
            c <= chunk.clumps.len(),
            forall|j: int|
                0 <= j < c ==> {
                    &&& (#[trigger] chunk@.clumps[j]).clump_index < refs
                    &&& spec_below(chunk@.clumps[j].bone_material_indices, refs as int)
                    &&& spec_below(chunk@.clumps[j].model_indices, refs as int)
                },
        decreases chunk.clumps.len() - c,
    {
        let clump = &chunk.clumps[c];
        assert(chunk@.clumps[c as int] == clump@);
        if clump.clump_index as usize >= refs || !below(&clump.bone_material_indices, refs)
            || !below(&clump.model_indices, refs) {
            return false;
        }
        c += 1;
    }
    chunk.other_entry_chunk_indices.len() <= 0xffff && below(
        &chunk.other_entry_chunk_indices,
        infos,
    )
}

/// The references at `indices`.
fn refs_at(refs: &[NuccStructReference], indices: &Vec<u32>) -> (r: Vec<NuccStructReference>)
    requires
        spec_below(indices@, refs@.len() as int),
    ensures
        views(r@) == spec_refs_at(views(refs@), indices@),
{
    let mut out: Vec<NuccStructReference> = Vec::new();
    let mut i: usize = 0;
    while i < indices.len()
        invariant
            i <= indices.len(),
            spec_below(indices@, refs@.len() as int),
            out.len() == i,
            forall|j: int| 0 <= j < i ==> (#[trigger] out@[j])@ == refs@[indices@[j] as int]@,
        decreases indices.len() - i,
    {
        assert(indices@[i as int] < refs@.len());
        out.push(refs[indices[i] as usize].clone());
        i += 1;
    }
    assert(views(out@) =~= spec_refs_at(views(refs@), indices@));
    out
}

/// The identities at `indices`.
fn infos_at(infos: &[NuccStructInfo], indices: &Vec<u32>) -> (r: Vec<NuccStructInfo>)
    requires
        spec_below(indices@, infos@.len() as int),
    ensures
        views(r@) == spec_infos_at(views(infos@), indices@),
{
    let mut out: Vec<NuccStructInfo> = Vec::new();
    let mut i: usize = 0;
    while i < indices.len()
        invariant
            i <= indices.len(),
            spec_below(indices@, infos@.len() as int),
            out.len() == i,
            forall|j: int| 0 <= j < i ==> (#[trigger] out@[j])@ == infos@[indices@[j] as int]@,
        decreases indices.len() - i,
    {
        assert(indices@[i as int] < infos@.len());
        out.push(infos[indices[i] as usize].clone());
        i += 1;
    }
    assert(views(out@) =~= spec_infos_at(views(infos@), indices@));
    out
}

/// How many slots each clump has.
fn slots_of(clumps: &Vec<ChunkClump>) -> (r: Vec<usize>)
    ensures
        r@.map_values(|n: usize| n as int) == spec_slots(views(clumps@)),
{
    let mut out: Vec<usize> = Vec::new();
    let mut i: usize = 0;
    while i < clumps.len()
        invariant
            i <= clumps.len(),
            out.len() == i,
            forall|j: int|
                0 <= j < i ==> (#[trigger] out@[j]) == clumps@[j].bone_material_indices@.len(),
        decreases clumps.len() - i,
    {
        out.push(clumps[i].bone_material_indices.len());
        i += 1;
    }
    assert(out@.map_values(|n: usize| n as int) =~= spec_slots(views(clumps@)));
    out
}

/// Builds the clump without a name from the entries outside every clump.
fn build_other(
    flat: &Vec<Entry>,
    coords: &Vec<ClumpCoordIndex>,
    index: &CoordIndex,
    infos: &[NuccStructInfo],
    indices: &Vec<u32>,
) -> (r: Clump)
    requires
        flat.len() == coords.len(),
        spec_indexes(coord_index_contents(index), coords@),
        graph::spec_distinct(coords@),
        indices.len() <= u16::MAX,
        spec_below(indices@, infos@.len() as int),
        forall|i: int| 0 <= i < indices.len() ==> spec_has(coords@, #[trigger] spec_other_place(i)),
    ensures
        r@ == spec_other_clump(views(flat@), coords@, views(infos@), indices@),
{
    let mut entries: Vec<Entry> = Vec::new();
    let mut i: usize = 0;
    while i < indices.len()
        invariant
            i <= indices.len(),
            flat.len() == coords.len(),
            spec_indexes(coord_index_contents(index), coords@),
            graph::spec_distinct(coords@),
            indices.len() <= u16::MAX,
            spec_below(indices@, infos@.len() as int),
            forall|i: int|
                0 <= i < indices.len() ==> spec_has(coords@, #[trigger] spec_other_place(i)),
            entries.len() == i,
            forall|j: int|
                0 <= j < i ==> (#[trigger] entries@[j])@ == spec_other_entries(
                    views(flat@),
                    coords@,
                    views(infos@),
                    indices@,
                )[j],
        decreases indices.len() - i,
    {
        let ghost place = spec_other_place(i as int);
        assert(spec_has(coords@, place));
        let at = match index.get((-1i16, i as u16)) {
            Some(at) => at,
            None => {
                assert(false);
                0
            },
        };
        proof {
            let a = choose|a: int| 0 <= a < coords@.len() && coords@[a] == place;
            assert(coord_index_contents(index)[spec_key(coords@[a])] == a);
            assert(at == a);
            lemma_find_unique(coords@, a);
            assert(indices@[i as int] < infos@.len());
        }
        let info = infos[indices[i] as usize].clone();
        let entry = flat[at].duplicate_as(EntryInfo::StructInfo(info));
        entries.push(entry);
        i += 1;
    }
    assert(views(entries@) =~= spec_other_entries(views(flat@), coords@, views(infos@), indices@));
    Clump::new_other(entries, infos_at(infos, indices))
}

/// What the checks on entries and edges establish for the building of the
/// trees of every clump.
proof fn lemma_ready(
    flat: Seq<Entry>,
    coords: Seq<ClumpCoordIndex>,
    edges: Seq<ParentChildIndex>,
    parents: Seq<Option<usize>>,
    kids: Seq<Vec<usize>>,
    names: Seq<NuccStructReference>,
    slots: Seq<int>,
    others: int,
    clump: int,
)
    requires
        flat.len() == coords.len(),
        spec_well_formed(coords, edges, slots, others),
        spec_linked(coords, edges, parents, kids),
        0 <= clump < slots.len(),
        names.len() == slots[clump],
    ensures
        spec_ready(flat, coords, edges, kids, names, clump),
{
    assert forall|k: int, i: int| 0 <= k < coords.len() && 0 <= i < kids[k]@.len() implies coords[(
    #[trigger] kids[k]@[i]) as int].0 == coords[k].0 by {
        let listed = spec_places(kids[k]@, coords);
        assert(listed == spec_kids(edges, coords[k]));
        assert(listed[i] == coords[kids[k]@[i] as int]);
        lemma_kids_are_children(edges, coords[k], i);
        let a = choose|a: int|
            0 <= a < edges.len() && edges[a].0 == coords[k] && edges[a].1 == spec_kids(
                edges,
                coords[k],
            )[i];
        assert(graph::spec_edge_ok(coords, edges[a]));
    }
}

/// Builds the clumps of the file, each with the trees of its roots.
fn build_clumps(
    chunk: &NuccChunkAnm,
    flat: &Vec<Entry>,
    coords: &Vec<ClumpCoordIndex>,
    parents: &Vec<Option<usize>>,
    kids: &Vec<Vec<usize>>,
    refs: &[NuccStructReference],
) -> (r: Result<Vec<Clump>, NuccError>)
    requires
        flat.len() == coords.len(),
        spec_clump_indices_ok(chunk@.clumps, refs@.len() as int),
        spec_well_formed(
            coords@,
            chunk@.coord_parents,
            spec_slots(chunk@.clumps),
            chunk@.other_entry_chunk_indices.len() as int,
        ),
        spec_linked(coords@, chunk@.coord_parents, parents@, kids@),
    ensures
        r matches Ok(clumps) ==> spec_clumps_of(
            views(flat@),
            coords@,
            chunk@.coord_parents,
            views(refs@),
            chunk@.clumps,
            chunk@.clumps.len() as int,
        ) == Ok::<Seq<ClumpView>, NuccError>(views(clumps@)),
        r matches Err(e) ==> spec_clumps_of(
            views(flat@),
            coords@,
            chunk@.coord_parents,
            views(refs@),
            chunk@.clumps,
            chunk@.clumps.len() as int,
        ) == Err::<Seq<ClumpView>, NuccError>(e),
{
    let ghost edges = chunk@.coord_parents;
    let ghost slots = spec_slots(chunk@.clumps);
    let ghost others = chunk@.other_entry_chunk_indices.len() as int;
    let mut clumps: Vec<Clump> = Vec::new();
    let mut c: usize = 0;
    assert(views(clumps@) =~= seq![]);
    while c < chunk.clumps.len()
        invariant
            c <= chunk.clumps.len(),
            edges == chunk@.coord_parents,
            slots == spec_slots(chunk@.clumps),
            others == chunk@.other_entry_chunk_indices.len(),
            flat.len() == coords.len(),
            spec_clump_indices_ok(chunk@.clumps, refs@.len() as int),
            spec_well_formed(coords@, edges, slots, others),
            spec_linked(coords@, edges, parents@, kids@),
            spec_clumps_of(views(flat@), coords@, edges, views(refs@), chunk@.clumps, c as int)
                == Ok::<Seq<ClumpView>, NuccError>(views(clumps@)),
        decreases chunk.clumps.len() - c,
    {
        let ghost before = views(clumps@);
        let wire = &chunk.clumps[c];
        assert(chunk@.clumps[c as int] == wire@);
        let names = refs_at(refs, &wire.bone_material_indices);
        let models = refs_at(refs, &wire.model_indices);
        let name = refs[wire.clump_index as usize].clone();
        assert(names.len() == slots[c as int]) by {
            assert(views(names@).len() == names.len());
        }
        let roots = if c <= 0x7fff {
            proof {
                lemma_ready(
                    flat@,
                    coords@,
                    edges,
                    parents@,
                    kids@,
                    names@,
                    slots,
                    others,
                    c as int,
                );
            }
            match build_roots(flat, coords, parents, kids, &names, c as i16, Ghost(edges)) {
                Ok(roots) => roots,
                Err(e) => {
                    proof {
                        lemma_clumps_of_err(
                            views(flat@),
                            coords@,
                            edges,
                            views(refs@),
                            chunk@.clumps,
                            chunk@.clumps.len() as int,
                            c as int,
                        );
                    }
                    return Err(e);
                },
            }
        } else {
            proof {
                lemma_no_roots(coords@, edges, c as int);
            }
            let none: Vec<Entry> = Vec::new();
            assert(views(none@) =~= seq![]);
            none
        };
        let clump = Clump::new_clump(name, roots, names, models);
        clumps.push(clump);
        assert(views(clumps@) =~= before.push(clump@));
        c += 1;
    }
    Ok(clumps)
}

impl NuccAnm {
    /// Builds the animation that a wire animation stands for, given the
    /// identities and references of its page.
    pub fn from_parts(
        chunk: &NuccChunkAnm,
        struct_infos: &[NuccStructInfo],
        struct_references: &[NuccStructReference],
    ) -> (r: Result<NuccAnm, NuccError>)
        ensures
            r matches Ok(anm) ==> spec_anm_struct(
                chunk@,
                views(struct_infos@),
                views(struct_references@),
            ) == Ok::<AnmView, NuccError>(anm@),
            r matches Err(e) ==> spec_anm_struct(
                chunk@,
                views(struct_infos@),
                views(struct_references@),
            ) == Err::<AnmView, NuccError>(e),
    {
        let (flat, coords) = match convert_entries(&chunk.entries) {
            Ok(v) => v,
            Err(e) => { return Err(e); },
        };
        let slots = slots_of(&chunk.clumps);
        let others = chunk.other_entry_chunk_indices.len();
        let index = match index_coords(&coords) {
            Some(index) => index,
            None => { return Err(NuccError::MalformedGraph); },
        };
        if others > 0xffff {
            return Err(NuccError::MalformedGraph);
        }
        if !coords_ok(&coords, &slots, others) {
            return Err(NuccError::MalformedGraph);
        }
        if !others_present(&index, others, Ghost(coords@)) {
            return Err(NuccError::MalformedGraph);
        }
        let (parents, kids) = match link(&coords, &chunk.coord_parents, &index) {
            Some(v) => v,
            None => { return Err(NuccError::MalformedGraph); },
        };
        if !all_climb(&parents, Ghost(coords@), Ghost(chunk@.coord_parents)) {
            return Err(NuccError::MalformedGraph);
        }
        if !indices_ok(chunk, struct_infos.len(), struct_references.len()) {
            return Err(NuccError::CountMismatch);
        }
        if chunk.unk_entry_chunk_indices.len() != 0 {
            return Err(NuccError::UnsupportedFeature);
        }
        let mut clumps = match build_clumps(
            chunk,
            &flat,
            &coords,
            &parents,
            &kids,
            struct_references,
        ) {
            Ok(v) => v,
            Err(e) => { return Err(e); },
        };
        if others != 0 {
            let ghost before = views(clumps@);
            let other = build_other(
                &flat,
                &coords,
                &index,
                struct_infos,
                &chunk.other_entry_chunk_indices,
            );
            clumps.push(other);
            assert(views(clumps@) =~= before.push(other@));
        }
        Ok(
            NuccAnm {
                struct_info: NuccStructInfo::default(),
                version: chunk.version,
                frame_count: chunk.frame_count,
                frame_size: chunk.frame_size,
                clumps,
            },
        )
    }
}

/// The clumps that are built are as many as the wire clumps, and each is
/// the clump that its wire clump stands for.
pub proof fn lemma_clumps_of(
    flat: Seq<EntryView>,
    coords: Seq<ClumpCoordIndex>,
    edges: Seq<ParentChildIndex>,
    refs: Seq<StructReferenceView>,
    clumps: Seq<ChunkClumpView>,
    upto: int,
)
    requires
        0 <= upto,
        spec_clumps_of(flat, coords, edges, refs, clumps, upto) is Ok,
    ensures
        spec_clumps_of(flat, coords, edges, refs, clumps, upto)->Ok_0.len() == upto,
        forall|c: int|
            0 <= c < upto ==> spec_clump_of(flat, coords, edges, refs, clumps[c], c) == Ok::<
                ClumpView,
                NuccError,
            >(#[trigger] spec_clumps_of(flat, coords, edges, refs, clumps, upto)->Ok_0[c]),
    decreases upto,
{
    if upto > 0 {
        lemma_clumps_of(flat, coords, edges, refs, clumps, upto - 1);
    }
}

/// Whether the trees of `clump` hold the entries of the clump numbered
/// `c`, each once, and nothing else: the places of its trees can be listed,
/// no place stands twice in the list, a place stands in it if and only if an
/// entry of clump `c` lies there, and the nodes of the trees in depth-first
/// order are the entries at the listed places.
pub open spec fn spec_clump_holds(
    chunk: ChunkAnmView,
    refs: Seq<StructReferenceView>,
    flat: Seq<EntryView>,
    clump: ClumpView,
    c: int,
) -> bool {
    let coords = spec_coords(chunk.entries);
    let places = spec_forest_places(
        chunk.coord_parents,
        spec_roots(coords, chunk.coord_parents, c),
        coords.len(),
    );
    &&& places is Some
    &&& spec_distinct(places->Some_0)
    &&& forall|place: ClumpCoordIndex|
        #[trigger] spec_in(places->Some_0, place) <==> spec_has(coords, place) && place.0 == c
    &&& spec_nodes_match(
        spec_preorder(clump.root_entries),
        places->Some_0,
        flat,
        coords,
        spec_refs_at(refs, chunk.clumps[c].bone_material_indices),
    )
}

/// Building the trees of an animation loses no entry and makes none up:
/// the trees of each clump hold the entries of that clump, each once, with
/// the kind and the curves that the file gives them; and the entries
/// outside every clump are the entries of the last clump, by slot.
pub proof fn lemma_trees_hold_the_entries(
    chunk: ChunkAnmView,
    infos: Seq<StructInfoView>,
    refs: Seq<StructReferenceView>,
)
    requires
        spec_anm_struct(chunk, infos, refs) is Ok,
    ensures
        spec_flat(chunk.entries) is Ok,
        spec_well_formed(
            spec_coords(chunk.entries),
            chunk.coord_parents,
            spec_slots(chunk.clumps),
            chunk.other_entry_chunk_indices.len() as int,
        ),
        spec_anm_struct(chunk, infos, refs)->Ok_0.clumps.len() >= chunk.clumps.len(),
        forall|c: int|
            0 <= c < chunk.clumps.len() ==> spec_clump_holds(
                chunk,
                refs,
                spec_flat(chunk.entries)->Ok_0,
                #[trigger] spec_anm_struct(chunk, infos, refs)->Ok_0.clumps[c],
                c,
            ),
        chunk.other_entry_chunk_indices.len() != 0 ==> spec_anm_struct(
            chunk,
            infos,
            refs,
        )->Ok_0.clumps.last() == spec_other_clump(
            spec_flat(chunk.entries)->Ok_0,
            spec_coords(chunk.entries),
            infos,
            chunk.other_entry_chunk_indices,
        ),
        forall|k: int|
            0 <= k < chunk.entries.len() && (#[trigger] spec_coords(chunk.entries)[k]).0 < 0
                ==> spec_coords(chunk.entries)[k] == spec_other_place(
                spec_coords(chunk.entries)[k].1 as int,
            ) && spec_coords(chunk.entries)[k].1 < chunk.other_entry_chunk_indices.len(),
{
    let coords = spec_coords(chunk.entries);
    let edges = chunk.coord_parents;
    let flat = spec_flat(chunk.entries)->Ok_0;
    let slots = spec_slots(chunk.clumps);
    let others = chunk.other_entry_chunk_indices.len() as int;
    let anm = spec_anm_struct(chunk, infos, refs)->Ok_0;
    let built = spec_clumps_of(flat, coords, edges, refs, chunk.clumps, chunk.clumps.len() as int)->Ok_0;
    lemma_clumps_of(flat, coords, edges, refs, chunk.clumps, chunk.clumps.len() as int);
    assert forall|c: int| 0 <= c < chunk.clumps.len() implies spec_clump_holds(
        chunk,
        refs,
        flat,
        #[trigger] anm.clumps[c],
        c,
    ) by {
        assert(anm.clumps[c] == built[c]);
        let names = spec_refs_at(refs, chunk.clumps[c].bone_material_indices);
        let roots = spec_roots(coords, edges, c);
        lemma_forest_shape(flat, coords, edges, names, roots, coords.len());
        lemma_clump_holds_its_entries(coords, edges, slots, others, c);
    }
    assert forall|k: int|
        0 <= k < chunk.entries.len() && (#[trigger] coords[k]).0 < 0 implies coords[k]
        == spec_other_place(coords[k].1 as int) && coords[k].1 < others by {
        assert(spec_coord_ok(coords[k], slots, others));
    }
}

} // verus!
