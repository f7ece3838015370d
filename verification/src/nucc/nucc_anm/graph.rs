//! From the flat entries and edges of the file to entry trees, and back.

use vstd::prelude::*;

use crate::error::NuccError;
use crate::maps::coord_index_contents;
use crate::maps::CoordIndex;
use crate::nucc::nucc_anm::entry::lemma_children_view;
use crate::nucc::nucc_anm::entry::spec_no_info;
use crate::nucc::nucc_anm::entry::Entry;
use crate::nucc::nucc_anm::entry::EntryInfo;
use crate::nucc::nucc_anm::entry::EntryInfoView;
use crate::nucc::nucc_anm::entry::EntryView;
use crate::nucc::views;
use crate::nucc::NuccStructInfo;
use crate::nucc::NuccStructReference;
use crate::nucc::StructReferenceView;
use crate::nucc_chunk::nucc_chunk_anm::clump::ClumpCoordIndex;
use crate::nucc_chunk::nucc_chunk_anm::clump::ParentChildIndex;

verus! {

/// Whether no place occurs twice.
pub open spec fn spec_distinct(coords: Seq<ClumpCoordIndex>) -> bool {
    forall|i: int, j: int| 0 <= i < j < coords.len() ==> coords[i] != coords[j]
}

/// Whether some entry lies at `place`.
pub open spec fn spec_has(coords: Seq<ClumpCoordIndex>, place: ClumpCoordIndex) -> bool {
    exists|i: int| 0 <= i < coords.len() && coords[i] == place
}

/// The position of an entry that lies at `place`.
pub open spec fn spec_find(coords: Seq<ClumpCoordIndex>, place: ClumpCoordIndex) -> int {
    choose|i: int| 0 <= i < coords.len() && coords[i] == place
}

/// Whether a place lies where entries can lie: in one of the clumps, or
/// among the entries outside every clump, which have the clump index -1 and
/// the slots `0..others`. An entry of a clump may lie at a slot that the
/// clump does not declare.
pub open spec fn spec_coord_ok(place: ClumpCoordIndex, slots: Seq<int>, others: int) -> bool {
    if place.0 == -1 {
        place.1 < others
    } else {
        0 <= place.0 < slots.len()
    }
}

/// The identity of the entry at `place`: the reference of its slot, or, at
/// a slot that the clump does not declare, the identity of an entry to
/// which none is assigned.
pub open spec fn spec_entry_name(
    names: Seq<StructReferenceView>,
    place: ClumpCoordIndex,
) -> EntryInfoView {
    if place.1 < names.len() {
        EntryInfoView::StructRef(names[place.1 as int])
    } else {
        spec_no_info()
    }
}

/// The place of the `i`-th entry outside every clump.
pub open spec fn spec_other_place(i: int) -> ClumpCoordIndex {
    ClumpCoordIndex(-1i16, i as u16)
}

/// Whether an edge joins two entries of one clump.
pub open spec fn spec_edge_ok(coords: Seq<ClumpCoordIndex>, edge: ParentChildIndex) -> bool {
    &&& edge.0.0 >= 0
    &&& edge.0.0 == edge.1.0
    &&& spec_has(coords, edge.0)
    &&& spec_has(coords, edge.1)
}

/// Whether some edge has `place` as its child.
pub open spec fn spec_is_child(edges: Seq<ParentChildIndex>, place: ClumpCoordIndex) -> bool {
    exists|i: int| 0 <= i < edges.len() && edges[i].1 == place
}

/// The parent of `place` by an edge that has `place` as its child.
pub open spec fn spec_parent(
    edges: Seq<ParentChildIndex>,
    place: ClumpCoordIndex,
) -> ClumpCoordIndex {
    edges[choose|i: int| 0 <= i < edges.len() && edges[i].1 == place].0
}

/// Whether no place is the child of two edges.
pub open spec fn spec_single_parent(edges: Seq<ParentChildIndex>) -> bool {
    forall|i: int, j: int| 0 <= i < j < edges.len() ==> edges[i].1 != edges[j].1
}

/// Whether going from `place` to its parent, and on to that one's parent,
/// ends at a place without a parent after at most `fuel` steps.
pub open spec fn spec_climbs(
    edges: Seq<ParentChildIndex>,
    place: ClumpCoordIndex,
    fuel: nat,
) -> bool
    decreases fuel,
{
    !spec_is_child(edges, place) || (fuel > 0 && spec_climbs(
        edges,
        spec_parent(edges, place),
        (fuel - 1) as nat,
    ))
}

/// The children of `place`, in the order of their edges.
pub open spec fn spec_kids(edges: Seq<ParentChildIndex>, place: ClumpCoordIndex) -> Seq<
    ClumpCoordIndex,
>
    decreases edges.len(),
{
    if edges.len() == 0 {
        seq![]
    } else if edges.last().0 == place {
        spec_kids(edges.drop_last(), place).push(edges.last().1)
    } else {
        spec_kids(edges.drop_last(), place)
    }
}

/// Whether entries and edges make a forest: no two entries share a place,
/// every entry lies in one of the clumps or among the entries outside
/// every clump, which are no more than a slot can number and fill their
/// slots without a gap, every edge joins two entries of one clump, no entry
/// has two parents, and from every entry a root is reached.
pub open spec fn spec_well_formed(
    coords: Seq<ClumpCoordIndex>,
    edges: Seq<ParentChildIndex>,
    slots: Seq<int>,
    others: int,
) -> bool {
    &&& spec_distinct(coords)
    &&& others <= u16::MAX
    &&& forall|k: int| 0 <= k < coords.len() ==> spec_coord_ok(#[trigger] coords[k], slots, others)
    &&& forall|i: int|
        0 <= i < others ==> spec_has(coords, #[trigger] spec_other_place(i))
    &&& forall|i: int| 0 <= i < edges.len() ==> spec_edge_ok(coords, #[trigger] edges[i])
    &&& spec_single_parent(edges)
    &&& forall|k: int|
        0 <= k < coords.len() ==> spec_climbs(edges, #[trigger] coords[k], coords.len())
}

/// The key under which a place is looked up.
pub open spec fn spec_key(place: ClumpCoordIndex) -> (i16, u16) {
    (place.0, place.1)
}

/// Whether `index` leads from each place of `coords` to its position, and
/// from no other place anywhere.
pub open spec fn spec_indexes(index: Map<(i16, u16), usize>, coords: Seq<ClumpCoordIndex>) -> bool {
    &&& forall|key: (i16, u16)|
        index.contains_key(key) <==> spec_has(coords, ClumpCoordIndex(key.0, key.1))
    &&& forall|k: int|
        0 <= k < coords.len() ==> index.contains_key(spec_key(coords[k])) && #[trigger] index[spec_key(
            coords[k],
        )] == k
}

/// In a list without repetition, the position of the entry at a place is
/// the only position where that place is found.
pub proof fn lemma_find_unique(coords: Seq<ClumpCoordIndex>, k: int)
    requires
        spec_distinct(coords),
        0 <= k < coords.len(),
    ensures
        spec_has(coords, coords[k]),
        spec_find(coords, coords[k]) == k,
{
    let f = spec_find(coords, coords[k]);
    assert(0 <= f < coords.len() && coords[f] == coords[k]);
    if f < k {
        assert(coords[f] != coords[k]);
    } else if k < f {
        assert(coords[k] != coords[f]);
    }
}

/// Where no place has two parents, the parent of the child of an edge is
/// the parent of that edge.
pub proof fn lemma_parent_unique(edges: Seq<ParentChildIndex>, i: int)
    requires
        spec_single_parent(edges),
        0 <= i < edges.len(),
    ensures
        spec_is_child(edges, edges[i].1),
        spec_parent(edges, edges[i].1) == edges[i].0,
{
    let place = edges[i].1;
    let f = choose|f: int| 0 <= f < edges.len() && edges[f].1 == place;
    assert(0 <= f < edges.len() && edges[f].1 == place);
    if f < i {
        assert(edges[f].1 != edges[i].1);
    } else if i < f {
        assert(edges[i].1 != edges[f].1);
    }
}

/// Builds the index from places to positions; `None` when two entries
/// share a place.
pub fn index_coords(coords: &Vec<ClumpCoordIndex>) -> (r: Option<CoordIndex>)
    ensures
        r is Some <==> spec_distinct(coords@),
        r matches Some(index) ==> spec_indexes(coord_index_contents(&index), coords@),
{
    let mut index = CoordIndex::new();
    let mut k: usize = 0;
    while k < coords.len()
        invariant
            k <= coords.len(),
            spec_distinct(coords@.subrange(0, k as int)),
            spec_indexes(coord_index_contents(&index), coords@.subrange(0, k as int)),
        decreases coords.len() - k,
    {
        let place = coords[k];
        let ghost before = coord_index_contents(&index);
        let ghost prefix = coords@.subrange(0, k as int);
        let ghost next = coords@.subrange(0, k + 1);
        let entered = index.try_insert((place.0, place.1), k);
        if !entered {
            proof {
                assert(spec_has(prefix, ClumpCoordIndex(place.0, place.1)));
                let j = choose|j: int| 0 <= j < prefix.len() && prefix[j] == place;
                assert(coords@[j] == coords@[k as int]);
            }
            return None;
        }
        proof {
            let after = coord_index_contents(&index);
            assert(!spec_has(prefix, place));
            assert forall|i: int, j: int| 0 <= i < j < next.len() implies next[i] != next[j] by {
                if j == k {
                    assert(prefix[i] == next[i]);
                } else {
                    assert(prefix[i] == next[i] && prefix[j] == next[j]);
                }
            }
            assert forall|key: (i16, u16)|
                after.contains_key(key) <==> spec_has(next, ClumpCoordIndex(key.0, key.1)) by {
                let c = ClumpCoordIndex(key.0, key.1);
                if spec_has(next, c) {
                    let j = choose|j: int| 0 <= j < next.len() && next[j] == c;
                    if j < k {
                        assert(prefix[j] == c);
                    }
                }
                if spec_has(prefix, c) {
                    let j = choose|j: int| 0 <= j < prefix.len() && prefix[j] == c;
                    assert(next[j] == c);
                }
                if key == (place.0, place.1) {
                    assert(next[k as int] == c);
                }
            }
            assert forall|j: int| 0 <= j < next.len() implies after.contains_key(
                spec_key(next[j]),
            ) && #[trigger] after[spec_key(next[j])] == j by {
                if j < k {
                    assert(prefix[j] == next[j]);
                    assert(before[spec_key(prefix[j])] == j);
                    assert(spec_key(next[j]) != spec_key(place));
                }
            }
        }
        k += 1;
    }
    assert(coords@.subrange(0, coords.len() as int) =~= coords@);
    Some(index)
}

/// Whether every place of `coords` lies where entries can lie.
pub fn coords_ok(coords: &Vec<ClumpCoordIndex>, slots: &Vec<usize>, others: usize) -> (r: bool)
    ensures
        r == (forall|k: int|
            0 <= k < coords.len() ==> spec_coord_ok(
                #[trigger] coords@[k],
                slots@.map_values(|n: usize| n as int),
                others as int,
            )),
{
    let ghost limits = slots@.map_values(|n: usize| n as int);
    let mut k: usize = 0;
    while k < coords.len()
        invariant
            k <= coords.len(),
            limits == slots@.map_values(|n: usize| n as int),
            forall|j: int|
                0 <= j < k ==> spec_coord_ok(#[trigger] coords@[j], limits, others as int),
        decreases coords.len() - k,
    {
        let place = coords[k];
        let ok = if place.0 == -1 {
            (place.1 as usize) < others
        } else {
            place.0 >= 0 && (place.0 as usize) < slots.len()
        };
        if !ok {
            assert(!spec_coord_ok(coords@[k as int], limits, others as int));
            return false;
        }
        k += 1;
    }
    true
}

/// Whether the entries outside every clump fill the slots `0..others`
/// without a gap.
pub(crate) fn others_present(index: &CoordIndex, others: usize, Ghost(coords): Ghost<
    Seq<ClumpCoordIndex>,
>) -> (r: bool)
    requires
        spec_indexes(coord_index_contents(index), coords),
        others <= 0xffff,
    ensures
        r == (forall|i: int|
            0 <= i < others ==> spec_has(coords, #[trigger] spec_other_place(i))),
{
    let mut i: usize = 0;
    while i < others
        invariant
            i <= others,
            others <= 0xffff,
            spec_indexes(coord_index_contents(index), coords),
            forall|j: int|
                0 <= j < i ==> spec_has(coords, #[trigger] spec_other_place(j)),
        decreases others - i,
    {
        if index.get((-1i16, i as u16)).is_none() {
            assert(!spec_has(coords, spec_other_place(i as int)));
            return false;
        }
        i += 1;
    }
    true
}

/// The places of the entries at `positions`.
pub open spec fn spec_places(positions: Seq<usize>, coords: Seq<ClumpCoordIndex>) -> Seq<
    ClumpCoordIndex,
> {
    Seq::new(positions.len(), |i: int| coords[positions[i] as int])
}

/// Whether `parents` and `kids` say of each entry, by its position, what
/// the edges say of its place: whether it has a parent and which, and which
/// children it has in which order.
pub open spec fn spec_linked(
    coords: Seq<ClumpCoordIndex>,
    edges: Seq<ParentChildIndex>,
    parents: Seq<Option<usize>>,
    kids: Seq<Vec<usize>>,
) -> bool {
    &&& parents.len() == coords.len()
    &&& kids.len() == coords.len()
    &&& forall|k: int|
        0 <= k < coords.len() ==> ((#[trigger] parents[k]) is None <==> !spec_is_child(
            edges,
            coords[k],
        ))
    &&& forall|k: int|
        0 <= k < coords.len() ==> ((#[trigger] parents[k]) matches Some(p) ==> p < coords.len()
            && coords[p as int] == spec_parent(edges, coords[k]))
    &&& forall|k: int, i: int|
        0 <= k < coords.len() && 0 <= i < kids[k]@.len() ==> (#[trigger] kids[k]@[i])
            < coords.len()
    &&& forall|k: int|
        0 <= k < coords.len() ==> spec_places((#[trigger] kids[k])@, coords) == spec_kids(
            edges,
            coords[k],
        )
}

/// `spec_linked` for the edges seen so far, with the edge that gives an
/// entry its parent named instead of chosen.
spec fn spec_linked_so_far(
    coords: Seq<ClumpCoordIndex>,
    edges: Seq<ParentChildIndex>,
    parents: Seq<Option<usize>>,
    kids: Seq<Vec<usize>>,
) -> bool {
    &&& parents.len() == coords.len()
    &&& kids.len() == coords.len()
    &&& forall|k: int|
        0 <= k < coords.len() ==> ((#[trigger] parents[k]) is None <==> !spec_is_child(
            edges,
            coords[k],
        ))
    &&& forall|k: int|
        0 <= k < coords.len() ==> ((#[trigger] parents[k]) matches Some(p) ==> p < coords.len()
            && exists|i: int|
            0 <= i < edges.len() && edges[i].1 == coords[k] && edges[i].0 == coords[p as int])
    &&& forall|k: int, i: int|
        0 <= k < coords.len() && 0 <= i < kids[k]@.len() ==> (#[trigger] kids[k]@[i])
            < coords.len()
    &&& forall|k: int|
        0 <= k < coords.len() ==> spec_places((#[trigger] kids[k])@, coords) == spec_kids(
            edges,
            coords[k],
        )
}

/// Whether every edge joins two entries of one clump and no entry has two
/// parents.
pub open spec fn spec_edges_ok(coords: Seq<ClumpCoordIndex>, edges: Seq<ParentChildIndex>) -> bool {
    &&& forall|i: int| 0 <= i < edges.len() ==> spec_edge_ok(coords, #[trigger] edges[i])
    &&& spec_single_parent(edges)
}

/// One more edge, from the entry at `pi` to the entry at `qi`, which had no
/// parent: the links follow.
proof fn lemma_link_step(
    coords: Seq<ClumpCoordIndex>,
    edges: Seq<ParentChildIndex>,
    i: int,
    parents: Seq<Option<usize>>,
    kids: Seq<Vec<usize>>,
    pi: usize,
    qi: usize,
    parents2: Seq<Option<usize>>,
    kids2: Seq<Vec<usize>>,
)
    requires
        spec_distinct(coords),
        0 <= i < edges.len(),
        pi < coords.len(),
        qi < coords.len(),
        edges[i].0 == coords[pi as int],
        edges[i].1 == coords[qi as int],
        spec_edges_ok(coords, edges.subrange(0, i)),
        spec_edge_ok(coords, edges[i]),
        spec_linked_so_far(coords, edges.subrange(0, i), parents, kids),
        parents[qi as int] is None,
        parents2 == parents.update(qi as int, Some(pi)),
        kids2.len() == kids.len(),
        forall|k: int| 0 <= k < kids.len() && k != pi ==> kids2[k] == kids[k],
        kids2[pi as int]@ == kids[pi as int]@.push(qi),
    ensures
        spec_edges_ok(coords, edges.subrange(0, i + 1)),
        spec_linked_so_far(coords, edges.subrange(0, i + 1), parents2, kids2),
{
    let pre = edges.subrange(0, i);
    let next = edges.subrange(0, i + 1);
    let q = coords[qi as int];
    assert(next.drop_last() =~= pre);
    assert(next.last() == edges[i]);
    assert(!spec_is_child(pre, q));
    assert forall|a: int| 0 <= a < next.len() implies spec_edge_ok(coords, #[trigger] next[a]) by {
        if a < i {
            assert(pre[a] == next[a]);
        }
    }
    assert forall|a: int, b: int| 0 <= a < b < next.len() implies next[a].1 != next[b].1 by {
        if b < i {
            assert(pre[a] == next[a] && pre[b] == next[b]);
        } else {
            assert(pre[a] == next[a]);
            assert(pre[a].1 != q);
        }
    }
    assert forall|k: int| 0 <= k < coords.len() implies ((#[trigger] parents2[k]) is None
        <==> !spec_is_child(next, coords[k])) by {
        if k == qi {
            assert(next[i].1 == coords[k]);
        } else {
            assert(coords[k] != q) by {
                if k < qi {
                    assert(coords[k] != coords[qi as int]);
                } else {
                    assert(coords[qi as int] != coords[k]);
                }
            }
            if spec_is_child(next, coords[k]) {
                let a = choose|a: int| 0 <= a < next.len() && next[a].1 == coords[k];
                assert(a < i);
                assert(pre[a].1 == coords[k]);
            }
            if spec_is_child(pre, coords[k]) {
                let a = choose|a: int| 0 <= a < pre.len() && pre[a].1 == coords[k];
                assert(next[a].1 == coords[k]);
            }
        }
    }
    assert forall|k: int| 0 <= k < coords.len() implies ((#[trigger] parents2[k]) matches Some(
        p,
    ) ==> p < coords.len() && exists|a: int|
        0 <= a < next.len() && next[a].1 == coords[k] && next[a].0 == coords[p as int]) by {
        if k == qi {
            assert(next[i].1 == coords[k] && next[i].0 == coords[pi as int]);
        } else if parents[k] is Some {
            let p = parents[k]->Some_0;
            let a = choose|a: int|
                0 <= a < pre.len() && pre[a].1 == coords[k] && pre[a].0 == coords[p as int];
            assert(next[a].1 == coords[k] && next[a].0 == coords[p as int]);
        }
    }
    assert forall|k: int, a: int|
        0 <= k < coords.len() && 0 <= a < kids2[k]@.len() implies (#[trigger] kids2[k]@[a])
        < coords.len() by {
        if k == pi {
            if a < kids[k]@.len() {
                assert(kids2[k]@[a] == kids[k]@[a]);
            }
        } else {
            assert(kids2[k]@[a] == kids[k]@[a]);
        }
    }
    assert forall|k: int| 0 <= k < coords.len() implies spec_places(
        (#[trigger] kids2[k])@,
        coords,
    ) == spec_kids(next, coords[k]) by {
        assert(spec_places(kids[k]@, coords) == spec_kids(pre, coords[k]));
        if k == pi {
            assert(spec_places(kids2[k]@, coords) =~= spec_places(kids[k]@, coords).push(q));
        } else {
            assert(coords[k] != coords[pi as int]) by {
                if k < pi {
                    assert(coords[k] != coords[pi as int]);
                } else {
                    assert(coords[pi as int] != coords[k]);
                }
            }
        }
    }
}

/// Links the entries by the edges: for each entry the position of its
/// parent, if it has one, and the positions of its children in the order of
/// their edges. `None` when an edge does not join two entries of one clump
/// or an entry has two parents.
pub fn link(coords: &Vec<ClumpCoordIndex>, edges: &Vec<ParentChildIndex>, index: &CoordIndex) -> (r:
    Option<(Vec<Option<usize>>, Vec<Vec<usize>>)>)
    requires
        spec_distinct(coords@),
        spec_indexes(coord_index_contents(index), coords@),
    ensures
        r is Some <==> spec_edges_ok(coords@, edges@),
        r matches Some((parents, kids)) ==> spec_linked(coords@, edges@, parents@, kids@),
{
    let n = coords.len();
    let mut parents: Vec<Option<usize>> = Vec::new();
    let mut kids: Vec<Vec<usize>> = Vec::new();
    let mut k: usize = 0;
    while k < n
        invariant
            k <= n,
            n == coords.len(),
            parents.len() == k,
            kids.len() == k,
            forall|j: int| 0 <= j < k ==> (#[trigger] parents@[j]) is None,
            forall|j: int| 0 <= j < k ==> (#[trigger] kids@[j])@.len() == 0,
        decreases n - k,
    {
        parents.push(None);
        kids.push(Vec::new());
        k += 1;
    }
    proof {
        let none = edges@.subrange(0, 0);
        assert forall|j: int| 0 <= j < n implies spec_places((#[trigger] kids@[j])@, coords@)
            == spec_kids(none, coords@[j]) by {
            assert(spec_places(kids@[j]@, coords@) =~= seq![]);
        }
    }
    let mut i: usize = 0;
    while i < edges.len()
        invariant
            i <= edges.len(),
            n == coords.len(),
            spec_distinct(coords@),
            spec_indexes(coord_index_contents(index), coords@),
            spec_edges_ok(coords@, edges@.subrange(0, i as int)),
            spec_linked_so_far(coords@, edges@.subrange(0, i as int), parents@, kids@),
        decreases edges.len() - i,
    {
        let edge = edges[i];
        let ghost pre = edges@.subrange(0, i as int);
        if edge.0.0 < 0 || edge.0.0 != edge.1.0 {
            assert(!spec_edge_ok(coords@, edges@[i as int]));
            return None;
        }
        let pi = match index.get((edge.0.0, edge.0.1)) {
            Some(p) => p,
            None => {
                assert(!spec_edge_ok(coords@, edges@[i as int]));
                return None;
            },
        };
        let qi = match index.get((edge.1.0, edge.1.1)) {
            Some(q) => q,
            None => {
                assert(!spec_edge_ok(coords@, edges@[i as int]));
                return None;
            },
        };
        proof {
            assert(spec_has(coords@, edge.0) && spec_has(coords@, edge.1));
            let a = choose|a: int| 0 <= a < coords@.len() && coords@[a] == edge.0;
            assert(coord_index_contents(index)[spec_key(coords@[a])] == a);
            let b = choose|b: int| 0 <= b < coords@.len() && coords@[b] == edge.1;
            assert(coord_index_contents(index)[spec_key(coords@[b])] == b);
            assert(pi == a && qi == b);
        }
        if parents[qi].is_some() {
            proof {
                assert(spec_is_child(pre, coords@[qi as int]));
                let a = choose|a: int| 0 <= a < pre.len() && pre[a].1 == coords@[qi as int];
                assert(edges@[a].1 == edges@[i as int].1);
            }
            return None;
        }
        let ghost parents_before = parents@;
        let ghost kids_before = kids@;
        parents.set(qi, Some(pi));
        kids[pi].push(qi);
        proof {
            lemma_link_step(
                coords@,
                edges@,
                i as int,
                parents_before,
                kids_before,
                pi,
                qi,
                parents@,
                kids@,
            );
        }
        i += 1;
    }
    proof {
        assert(edges@.subrange(0, edges.len() as int) =~= edges@);
        assert forall|k: int| 0 <= k < coords@.len() implies ((#[trigger] parents@[k]) matches Some(
            p,
        ) ==> p < coords@.len() && coords@[p as int] == spec_parent(edges@, coords@[k])) by {
            if parents@[k] is Some {
                let p = parents@[k]->Some_0;
                let a = choose|a: int|
                    0 <= a < edges@.len() && edges@[a].1 == coords@[k] && edges@[a].0
                        == coords@[p as int];
                lemma_parent_unique(edges@, a);
            }
        }
    }
    Some((parents, kids))
}

/// Whether a root is reached from the entry at `k` by going from child to
/// parent at most as many times as there are entries.
pub(crate) fn climbs(parents: &Vec<Option<usize>>, k: usize, Ghost(coords): Ghost<
    Seq<ClumpCoordIndex>,
>, Ghost(edges): Ghost<Seq<ParentChildIndex>>) -> (r: bool)
    requires
        k < coords.len(),
        parents.len() == coords.len(),
        forall|j: int|
            0 <= j < coords.len() ==> ((#[trigger] parents@[j]) is None <==> !spec_is_child(
                edges,
                coords[j],
            )),
        forall|j: int|
            0 <= j < coords.len() ==> ((#[trigger] parents@[j]) matches Some(p) ==> p
                < coords.len() && coords[p as int] == spec_parent(edges, coords[j])),
    ensures
        r == spec_climbs(edges, coords[k as int], coords.len()),
{
    let mut cur: usize = k;
    let mut fuel: usize = parents.len();
    loop
        invariant
            cur < coords.len(),
            fuel <= coords.len(),
            parents.len() == coords.len(),
            forall|j: int|
                0 <= j < coords.len() ==> ((#[trigger] parents@[j]) is None <==> !spec_is_child(
                    edges,
                    coords[j],
                )),
            forall|j: int|
                0 <= j < coords.len() ==> ((#[trigger] parents@[j]) matches Some(p) ==> p
                    < coords.len() && coords[p as int] == spec_parent(edges, coords[j])),
            spec_climbs(edges, coords[k as int], coords.len()) == spec_climbs(
                edges,
                coords[cur as int],
                fuel as nat,
            ),
        decreases fuel,
    {
        match parents[cur] {
            None => {
                return true;
            },
            Some(p) => {
                if fuel == 0 {
                    return false;
                }
                fuel -= 1;
                cur = p;
            },
        }
    }
}

/// Whether a root is reached from every entry.
pub(crate) fn all_climb(parents: &Vec<Option<usize>>, Ghost(coords): Ghost<Seq<ClumpCoordIndex>>, Ghost(
    edges,
): Ghost<Seq<ParentChildIndex>>) -> (r: bool)
    requires
        parents.len() == coords.len(),
        forall|j: int|
            0 <= j < coords.len() ==> ((#[trigger] parents@[j]) is None <==> !spec_is_child(
                edges,
                coords[j],
            )),
        forall|j: int|
            0 <= j < coords.len() ==> ((#[trigger] parents@[j]) matches Some(p) ==> p
                < coords.len() && coords[p as int] == spec_parent(edges, coords[j])),
    ensures
        r == (forall|k: int|
            0 <= k < coords.len() ==> spec_climbs(edges, #[trigger] coords[k], coords.len())),
{
    let mut k: usize = 0;
    while k < parents.len()
        invariant
            k <= parents.len(),
            parents.len() == coords.len(),
            forall|j: int|
                0 <= j < coords.len() ==> ((#[trigger] parents@[j]) is None <==> !spec_is_child(
                    edges,
                    coords[j],
                )),
            forall|j: int|
                0 <= j < coords.len() ==> ((#[trigger] parents@[j]) matches Some(p) ==> p
                    < coords.len() && coords[p as int] == spec_parent(edges, coords[j])),
            forall|j: int| 0 <= j < k ==> spec_climbs(edges, #[trigger] coords[j], coords.len()),
        decreases parents.len() - k,
    {
        if !climbs(parents, k, Ghost(coords), Ghost(edges)) {
            return false;
        }
        k += 1;
    }
    true
}

/// The tree below the entry at `place`: that entry, named by the reference
/// of its slot in `names` or, at a slot that the clump does not declare,
/// left without an identity; and below it the trees of its children in the
/// order of their edges. A tree deeper than `fuel` is a `MalformedGraph`.
pub open spec fn spec_tree(
    flat: Seq<EntryView>,
    coords: Seq<ClumpCoordIndex>,
    edges: Seq<ParentChildIndex>,
    names: Seq<StructReferenceView>,
    place: ClumpCoordIndex,
    fuel: nat,
) -> Result<EntryView, NuccError>
    decreases fuel, 0nat,
{
    if fuel == 0 {
        Err(NuccError::MalformedGraph)
    } else {
        let base = flat[spec_find(coords, place)];
        match spec_forest(
            flat,
            coords,
            edges,
            names,
            spec_kids(edges, place),
            (fuel - 1) as nat,
        ) {
            Err(e) => Err(e),
            Ok(children) => Ok(
                EntryView {
                    entry_info: spec_entry_name(names, place),
                    entry_format: base.entry_format,
                    curves: base.curves,
                    children,
                },
            ),
        }
    }
}

/// The trees below the entries at `places`, in that order; the first tree
/// that fails decides.
pub open spec fn spec_forest(
    flat: Seq<EntryView>,
    coords: Seq<ClumpCoordIndex>,
    edges: Seq<ParentChildIndex>,
    names: Seq<StructReferenceView>,
    places: Seq<ClumpCoordIndex>,
    fuel: nat,
) -> Result<Seq<EntryView>, NuccError>
    decreases fuel, places.len() + 1,
{
    if places.len() == 0 {
        Ok(seq![])
    } else {
        match spec_forest(flat, coords, edges, names, places.drop_last(), fuel) {
            Err(e) => Err(e),
            Ok(front) => match spec_tree(flat, coords, edges, names, places.last(), fuel) {
                Err(e) => Err(e),
                Ok(tree) => Ok(front.push(tree)),
            },
        }
    }
}

/// When the trees before the `k`-th are built and the `k`-th fails, the
/// forest fails as the `k`-th tree does.
proof fn lemma_forest_err(
    flat: Seq<EntryView>,
    coords: Seq<ClumpCoordIndex>,
    edges: Seq<ParentChildIndex>,
    names: Seq<StructReferenceView>,
    places: Seq<ClumpCoordIndex>,
    fuel: nat,
    k: int,
)
    requires
        0 <= k < places.len(),
        spec_forest(flat, coords, edges, names, places.subrange(0, k), fuel) is Ok,
        spec_tree(flat, coords, edges, names, places[k], fuel) is Err,
    ensures
        spec_forest(flat, coords, edges, names, places, fuel) == Err::<Seq<EntryView>, NuccError>(
            spec_tree(flat, coords, edges, names, places[k], fuel)->Err_0,
        ),
    decreases places.len(),
{
    if k == places.len() - 1 {
        assert(places.drop_last() =~= places.subrange(0, k));
    } else {
        assert(places.drop_last().subrange(0, k) =~= places.subrange(0, k));
        lemma_forest_err(flat, coords, edges, names, places.drop_last(), fuel, k);
    }
}

/// What `build_tree` and `build_roots` need to know of the lists they are
/// handed: the lists are as long as each other, no two entries share a
/// place, and `kids` gives for each entry the positions of its children,
/// which lie in the same clump.
pub open spec fn spec_ready(
    flat: Seq<Entry>,
    coords: Seq<ClumpCoordIndex>,
    edges: Seq<ParentChildIndex>,
    kids: Seq<Vec<usize>>,
    names: Seq<NuccStructReference>,
    clump: int,
) -> bool {
    &&& flat.len() == coords.len()
    &&& kids.len() == coords.len()
    &&& spec_distinct(coords)
    &&& forall|k: int, i: int|
        0 <= k < coords.len() && 0 <= i < kids[k]@.len() ==> (#[trigger] kids[k]@[i])
            < coords.len()
    &&& forall|k: int, i: int|
        0 <= k < coords.len() && 0 <= i < kids[k]@.len() ==> coords[(#[trigger] kids[k]@[i]) as int].0
            == coords[k].0
    &&& forall|k: int|
        0 <= k < coords.len() ==> spec_places((#[trigger] kids[k])@, coords) == spec_kids(
            edges,
            coords[k],
        )
}

/// Builds the tree below the entry at position `k`.
pub(crate) fn build_tree(
    flat: &Vec<Entry>,
    coords: &Vec<ClumpCoordIndex>,
    kids: &Vec<Vec<usize>>,
    names: &Vec<NuccStructReference>,
    k: usize,
    fuel: usize,
    Ghost(edges): Ghost<Seq<ParentChildIndex>>,
) -> (r: Result<Entry, NuccError>)
    requires
        k < coords.len(),
        spec_ready(flat@, coords@, edges, kids@, names@, coords[k as int].0 as int),
    ensures
        r matches Ok(entry) ==> spec_tree(
            views(flat@),
            coords@,
            edges,
            views(names@),
            coords[k as int],
            fuel as nat,
        ) == Ok::<EntryView, NuccError>(entry@),
        r matches Err(e) ==> spec_tree(
            views(flat@),
            coords@,
            edges,
            views(names@),
            coords[k as int],
            fuel as nat,
        ) == Err::<EntryView, NuccError>(e),
    decreases fuel,
{
    if fuel == 0 {
        return Err(NuccError::MalformedGraph);
    }
    let place = coords[k];
    let below = &kids[k];
    let ghost places = spec_places(below@, coords@);
    let mut children: Vec<Entry> = Vec::new();
    let mut i: usize = 0;
    proof {
        lemma_find_unique(coords@, k as int);
        assert(places.subrange(0, 0) =~= seq![]);
        assert(views(children@) =~= seq![]);
    }
    while i < below.len()
        invariant
            i <= below.len(),
            k < coords.len(),
            fuel > 0,
            place == coords[k as int],
            below == &kids[k as int],
            places == spec_places(below@, coords@),
            places == spec_kids(edges, place),
            spec_ready(flat@, coords@, edges, kids@, names@, place.0 as int),
            spec_forest(
                views(flat@),
                coords@,
                edges,
                views(names@),
                places.subrange(0, i as int),
                (fuel - 1) as nat,
            ) == Ok::<Seq<EntryView>, NuccError>(views(children@)),
        decreases below.len() - i,
    {
        let ghost before = views(children@);
        let ghost next = places.subrange(0, i + 1);
        proof {
            assert(next.drop_last() =~= places.subrange(0, i as int));
            assert(next.last() == coords@[below@[i as int] as int]);
            assert(kids@[k as int]@[i as int] < coords.len());
            assert(coords@[kids@[k as int]@[i as int] as int].0 == coords@[k as int].0);
        }
        let child = match build_tree(flat, coords, kids, names, below[i], fuel - 1, Ghost(edges)) {
            Ok(c) => c,
            Err(e) => {
                proof {
                    lemma_forest_err(
                        views(flat@),
                        coords@,
                        edges,
                        views(names@),
                        places,
                        (fuel - 1) as nat,
                        i as int,
                    );
                }
                return Err(e);
            },
        };
        children.push(child);
        assert(views(children@) =~= before.push(child@));
        i += 1;
    }
    assert(places.subrange(0, below.len() as int) =~= places);
    let entry_info = if (place.1 as usize) < names.len() {
        proof {
            assert(views(names@)[place.1 as int] == names@[place.1 as int]@);
        }
        EntryInfo::StructRef(names[place.1 as usize].clone())
    } else {
        EntryInfo::StructInfo(NuccStructInfo::default())
    };
    assert(entry_info@ == spec_entry_name(views(names@), place));
    let mut entry = flat[k].duplicate_as(entry_info);
    entry.children = children;
    proof {
        lemma_children_view(entry);
        assert(views(flat@)[k as int] == flat@[k as int]@);
    }
    Ok(entry)
}

/// The places of the roots of clump `clump`: its entries without a parent,
/// in the order of the entries.
pub open spec fn spec_roots(
    coords: Seq<ClumpCoordIndex>,
    edges: Seq<ParentChildIndex>,
    clump: int,
) -> Seq<ClumpCoordIndex>
    decreases coords.len(),
{
    if coords.len() == 0 {
        seq![]
    } else if coords.last().0 == clump && !spec_is_child(edges, coords.last()) {
        spec_roots(coords.drop_last(), edges, clump).push(coords.last())
    } else {
        spec_roots(coords.drop_last(), edges, clump)
    }
}

/// Builds the trees of clump `clump`, one for each of its entries without
/// a parent, in the order of the entries.
pub(crate) fn build_roots(
    flat: &Vec<Entry>,
    coords: &Vec<ClumpCoordIndex>,
    parents: &Vec<Option<usize>>,
    kids: &Vec<Vec<usize>>,
    names: &Vec<NuccStructReference>,
    clump: i16,
    Ghost(edges): Ghost<Seq<ParentChildIndex>>,
) -> (r: Result<Vec<Entry>, NuccError>)
    requires
        spec_ready(flat@, coords@, edges, kids@, names@, clump as int),
        parents.len() == coords.len(),
        forall|j: int|
            0 <= j < coords.len() ==> ((#[trigger] parents@[j]) is None <==> !spec_is_child(
                edges,
                coords[j],
            )),
    ensures
        r matches Ok(roots) ==> spec_forest(
            views(flat@),
            coords@,
            edges,
            views(names@),
            spec_roots(coords@, edges, clump as int),
            coords.len() as nat,
        ) == Ok::<Seq<EntryView>, NuccError>(views(roots@)),
        r matches Err(e) ==> spec_forest(
            views(flat@),
            coords@,
            edges,
            views(names@),
            spec_roots(coords@, edges, clump as int),
            coords.len() as nat,
        ) == Err::<Seq<EntryView>, NuccError>(e),
{
    let n = coords.len();
    let mut roots: Vec<Entry> = Vec::new();
    let mut k: usize = 0;
    proof {
        assert(coords@.subrange(0, 0) =~= seq![]);
        assert(views(roots@) =~= seq![]);
    }
    while k < n
        invariant
            k <= n,
            n == coords.len(),
            spec_ready(flat@, coords@, edges, kids@, names@, clump as int),
            parents.len() == coords.len(),
            forall|j: int|
                0 <= j < coords.len() ==> ((#[trigger] parents@[j]) is None <==> !spec_is_child(
                    edges,
                    coords[j],
                )),
            spec_forest(
                views(flat@),
                coords@,
                edges,
                views(names@),
                spec_roots(coords@.subrange(0, k as int), edges, clump as int),
                n as nat,
            ) == Ok::<Seq<EntryView>, NuccError>(views(roots@)),
        decreases n - k,
    {
        let ghost part = coords@.subrange(0, k as int);
        let ghost next = coords@.subrange(0, k + 1);
        proof {
            assert(next.drop_last() =~= part);
            assert(next.last() == coords@[k as int]);
        }
        if coords[k].0 == clump && parents[k].is_none() {
            let ghost before = views(roots@);
            let ghost places = spec_roots(next, edges, clump as int);
            proof {
                assert(places.drop_last() =~= spec_roots(part, edges, clump as int));
                assert(places.last() == coords@[k as int]);
            }
            let tree = match build_tree(flat, coords, kids, names, k, n, Ghost(edges)) {
                Ok(t) => t,
                Err(e) => {
                    proof {
                        lemma_roots_prefix(coords@, edges, clump as int, k + 1);
                        let all = spec_roots(coords@, edges, clump as int);
                        let at = places.len() - 1;
                        assert(all.subrange(0, at) =~= places.drop_last());
                        assert(all[at] == places.last());
                        lemma_forest_err(
                            views(flat@),
                            coords@,
                            edges,
                            views(names@),
                            all,
                            n as nat,
                            at,
                        );
                    }
                    return Err(e);
                },
            };
            roots.push(tree);
            assert(views(roots@) =~= before.push(tree@));
        }
        k += 1;
    }
    assert(coords@.subrange(0, n as int) =~= coords@);
    Ok(roots)
}

/// The roots among the first `upto` entries open the list of all roots.
proof fn lemma_roots_prefix(
    coords: Seq<ClumpCoordIndex>,
    edges: Seq<ParentChildIndex>,
    clump: int,
    upto: int,
)
    requires
        0 <= upto <= coords.len(),
    ensures
        spec_roots(coords.subrange(0, upto), edges, clump).len() <= spec_roots(
            coords,
            edges,
            clump,
        ).len(),
        spec_roots(coords, edges, clump).subrange(
            0,
            spec_roots(coords.subrange(0, upto), edges, clump).len() as int,
        ) == spec_roots(coords.subrange(0, upto), edges, clump),
    decreases coords.len() - upto,
{
    let part = spec_roots(coords.subrange(0, upto), edges, clump);
    let all = spec_roots(coords, edges, clump);
    if upto == coords.len() {
        assert(coords.subrange(0, upto) =~= coords);
        assert(all.subrange(0, all.len() as int) =~= all);
    } else {
        lemma_roots_prefix(coords, edges, clump, upto + 1);
        let more = coords.subrange(0, upto + 1);
        assert(more.drop_last() =~= coords.subrange(0, upto));
        let longer = spec_roots(more, edges, clump);
        assert(all.subrange(0, longer.len() as int) == longer);
        assert(all.subrange(0, part.len() as int) =~= part) by {
            assert forall|i: int| 0 <= i < part.len() implies all[i] == part[i] by {
                assert(longer[i] == part[i]);
                assert(all.subrange(0, longer.len() as int)[i] == all[i]);
            }
        }
    }
}

/// Every child of a place, as `spec_kids` lists them, is the child of an
/// edge whose parent is that place.
pub proof fn lemma_kids_are_children(
    edges: Seq<ParentChildIndex>,
    place: ClumpCoordIndex,
    i: int,
)
    requires
        0 <= i < spec_kids(edges, place).len(),
    ensures
        exists|a: int|
            0 <= a < edges.len() && edges[a].0 == place && edges[a].1 == spec_kids(edges, place)[i],
    decreases edges.len(),
{
    if edges.len() > 0 {
        let front = edges.drop_last();
        if edges.last().0 == place && i == spec_kids(front, place).len() {
            assert(edges[edges.len() - 1].0 == place);
        } else {
            lemma_kids_are_children(front, place, i);
            let a = choose|a: int|
                0 <= a < front.len() && front[a].0 == place && front[a].1 == spec_kids(
                    front,
                    place,
                )[i];
            assert(edges[a] == front[a]);
        }
    }
}

/// A clump whose number no place can bear has no roots.
pub proof fn lemma_no_roots(coords: Seq<ClumpCoordIndex>, edges: Seq<ParentChildIndex>, clump: int)
    requires
        clump > i16::MAX,
    ensures
        spec_roots(coords, edges, clump) == Seq::<ClumpCoordIndex>::empty(),
    decreases coords.len(),
{
    if coords.len() > 0 {
        lemma_no_roots(coords.drop_last(), edges, clump);
    }
}

} // verus!
