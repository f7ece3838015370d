//! The order in which the trees of a clump are written, and what the
//! places and edges of what is written tell of them.

use vstd::prelude::*;

use crate::nucc::StructReferenceView;
use crate::nucc::nucc_anm::entry::EntryInfoView;
use crate::nucc::nucc_anm::entry::EntryView;
use crate::nucc::nucc_anm::flatten::spec_chunk_entry;
use crate::nucc::nucc_anm::flatten::spec_flat_forest;
use crate::nucc::nucc_anm::flatten::spec_flat_tree;
use crate::nucc::nucc_anm::flatten::spec_place;
use crate::nucc::nucc_anm::graph::lemma_parent_unique;
use crate::nucc::nucc_anm::graph::spec_climbs;
use crate::nucc::nucc_anm::graph::spec_distinct;
use crate::nucc::nucc_anm::graph::spec_has;
use crate::nucc::nucc_anm::graph::spec_is_child;
use crate::nucc::nucc_anm::graph::spec_kids;
use crate::nucc::nucc_anm::graph::spec_parent;
use crate::nucc::nucc_anm::graph::spec_roots;
use crate::nucc::nucc_anm::graph::spec_single_parent;
use crate::nucc::nucc_anm::spec_coords;
use crate::nucc_chunk::nucc_chunk_anm::clump::ClumpCoordIndex;
use crate::nucc_chunk::nucc_chunk_anm::clump::ParentChildIndex;
use crate::nucc_chunk::nucc_chunk_anm::entry::EntryView as ChunkEntryView;
use crate::table::lemma_position;

verus! {

/// The place at which the root of a tree is written.
pub open spec fn spec_place_of(
    tree: EntryView,
    names: Seq<StructReferenceView>,
    clump: i16,
) -> ClumpCoordIndex {
    spec_place(names, tree.entry_info, clump)->Ok_0
}

/// The places at which the nodes of a tree are written, in the order in
/// which they are written.
pub open spec fn spec_tree_order(
    tree: EntryView,
    names: Seq<StructReferenceView>,
    clump: i16,
) -> Seq<ClumpCoordIndex>
    decreases tree,
{
    seq![spec_place_of(tree, names, clump)] + spec_forest_order(tree.children, names, clump)
}

/// The places at which the nodes of a forest are written, in the order in
/// which they are written.
pub open spec fn spec_forest_order(
    forest: Seq<EntryView>,
    names: Seq<StructReferenceView>,
    clump: i16,
) -> Seq<ClumpCoordIndex>
    decreases forest,
{
    if forest.len() == 0 {
        seq![]
    } else {
        spec_forest_order(forest.drop_last(), names, clump) + spec_tree_order(
            forest.last(),
            names,
            clump,
        )
    }
}

/// The edge that leads from a parent, if there is one, to a place.
pub open spec fn spec_edge_to(parent: Option<ClumpCoordIndex>, place: ClumpCoordIndex) -> Seq<
    ParentChildIndex,
> {
    match parent {
        Some(p) => seq![ParentChildIndex(p, place)],
        None => seq![],
    }
}

/// The edges that a tree is written with.
pub open spec fn spec_tree_edges(
    tree: EntryView,
    names: Seq<StructReferenceView>,
    clump: i16,
) -> Seq<ParentChildIndex>
    decreases tree,
{
    spec_forest_edges(tree.children, names, clump, Some(spec_place_of(tree, names, clump)))
}

/// The edges that a forest is written with, each tree after the edge that
/// leads to its root.
pub open spec fn spec_forest_edges(
    forest: Seq<EntryView>,
    names: Seq<StructReferenceView>,
    clump: i16,
    parent: Option<ClumpCoordIndex>,
) -> Seq<ParentChildIndex>
    decreases forest,
{
    if forest.len() == 0 {
        seq![]
    } else {
        spec_forest_edges(forest.drop_last(), names, clump, parent) + spec_edge_to(
            parent,
            spec_place_of(forest.last(), names, clump),
        ) + spec_tree_edges(forest.last(), names, clump)
    }
}

/// A tree that can be written is written at the places of `spec_tree_order`
/// with the edges of `spec_tree_edges`; every place lies in the clump and
/// has a slot among the names.
pub proof fn lemma_flat_tree_is(tree: EntryView, names: Seq<StructReferenceView>, clump: i16)
    requires
        spec_flat_tree(tree, names, clump) is Ok,
    ensures
        spec_coords(spec_flat_tree(tree, names, clump)->Ok_0.0) == spec_tree_order(
            tree,
            names,
            clump,
        ),
        spec_flat_tree(tree, names, clump)->Ok_0.1 == spec_tree_edges(tree, names, clump),
        spec_flat_tree(tree, names, clump)->Ok_0.0.len() >= 1,
        spec_flat_tree(tree, names, clump)->Ok_0.0[0] == spec_chunk_entry(
            tree,
            spec_place_of(tree, names, clump),
        )->Ok_0,
        spec_chunk_entry(tree, spec_place_of(tree, names, clump)) is Ok,
        spec_place(names, tree.entry_info, clump) is Ok,
        forall|i: int|
            0 <= i < spec_tree_order(tree, names, clump).len() ==> (#[trigger] spec_tree_order(
                tree,
                names,
                clump,
            )[i]).0 == clump && spec_tree_order(tree, names, clump)[i].1 < names.len(),
    decreases tree,
{
    let place = spec_place_of(tree, names, clump);
    let own = spec_chunk_entry(tree, place)->Ok_0;
    lemma_flat_forest_is(tree.children, names, clump, Some(place));
    let below = spec_flat_forest(tree.children, names, clump, Some(place))->Ok_0;
    let all = spec_flat_tree(tree, names, clump)->Ok_0.0;
    assert(all == seq![own] + below.0);
    assert(spec_coords(all) =~= seq![place] + spec_coords(below.0));
    match tree.entry_info {
        crate::nucc::nucc_anm::entry::EntryInfoView::StructRef(reference) => {
            lemma_position(names, reference);
        },
        _ => {},
    }
    let order = spec_tree_order(tree, names, clump);
    let under = spec_forest_order(tree.children, names, clump);
    assert forall|i: int| 0 <= i < order.len() implies (#[trigger] order[i]).0 == clump
        && order[i].1 < names.len() by {
        if i > 0 {
            assert(order[i] == under[i - 1]);
        }
    }
}

/// A forest that can be written is written at the places of
/// `spec_forest_order` with the edges of `spec_forest_edges`; every place
/// lies in the clump and has a slot among the names.
pub proof fn lemma_flat_forest_is(
    forest: Seq<EntryView>,
    names: Seq<StructReferenceView>,
    clump: i16,
    parent: Option<ClumpCoordIndex>,
)
    requires
        spec_flat_forest(forest, names, clump, parent) is Ok,
    ensures
        spec_coords(spec_flat_forest(forest, names, clump, parent)->Ok_0.0) == spec_forest_order(
            forest,
            names,
            clump,
        ),
        spec_flat_forest(forest, names, clump, parent)->Ok_0.1 == spec_forest_edges(
            forest,
            names,
            clump,
            parent,
        ),
        forall|k: int|
            0 <= k < forest.len() ==> spec_flat_tree(#[trigger] forest[k], names, clump) is Ok,
        forall|i: int|
            0 <= i < spec_forest_order(forest, names, clump).len() ==> (
            #[trigger] spec_forest_order(forest, names, clump)[i]).0 == clump && spec_forest_order(
                forest,
                names,
                clump,
            )[i].1 < names.len(),
    decreases forest,
{
    if forest.len() > 0 {
        let rest = forest.drop_last();
        let last = forest.last();
        lemma_flat_forest_is(rest, names, clump, parent);
        lemma_flat_tree_is(last, names, clump);
        let front = spec_flat_forest(rest, names, clump, parent)->Ok_0;
        let tree = spec_flat_tree(last, names, clump)->Ok_0;
        let all = spec_flat_forest(forest, names, clump, parent)->Ok_0;
        assert(all.0 == front.0 + tree.0);
        assert(spec_coords(all.0) =~= spec_coords(front.0) + spec_coords(tree.0));
        assert(tree.0[0].coord_index == spec_place_of(last, names, clump));
        match parent {
            Some(p) => {
                assert(all.1 =~= front.1 + spec_edge_to(
                    parent,
                    spec_place_of(last, names, clump),
                ) + tree.1);
            },
            None => {
                assert(all.1 =~= front.1 + spec_edge_to(
                    parent,
                    spec_place_of(last, names, clump),
                ) + tree.1);
            },
        }
        assert forall|k: int| 0 <= k < forest.len() implies spec_flat_tree(
            #[trigger] forest[k],
            names,
            clump,
        ) is Ok by {
            if k < rest.len() {
                assert(rest[k] == forest[k]);
            }
        }
        let order = spec_forest_order(forest, names, clump);
        let a = spec_forest_order(rest, names, clump);
        let b = spec_tree_order(last, names, clump);
        assert forall|i: int| 0 <= i < order.len() implies (#[trigger] order[i]).0 == clump
            && order[i].1 < names.len() by {
            if i < a.len() {
                assert(order[i] == a[i]);
            } else {
                assert(order[i] == b[i - a.len()]);
            }
        }
    }
}

/// The children of a place among two runs of edges are its children among
/// the first and then its children among the second.
pub proof fn lemma_kids_concat(
    a: Seq<ParentChildIndex>,
    b: Seq<ParentChildIndex>,
    place: ClumpCoordIndex,
)
    ensures
        spec_kids(a + b, place) == spec_kids(a, place) + spec_kids(b, place),
    decreases b.len(),
{
    if b.len() == 0 {
        assert(a + b =~= a);
        assert(spec_kids(a, place) + spec_kids(b, place) =~= spec_kids(a, place));
    } else {
        lemma_kids_concat(a, b.drop_last(), place);
        assert((a + b).drop_last() =~= a + b.drop_last());
        assert((a + b).last() == b.last());
        if b.last().0 == place {
            assert((spec_kids(a, place) + spec_kids(b.drop_last(), place)).push(b.last().1)
                =~= spec_kids(a, place) + spec_kids(b.drop_last(), place).push(b.last().1));
        }
    }
}

/// No place has children among edges of which none has it as parent.
pub proof fn lemma_kids_none(edges: Seq<ParentChildIndex>, place: ClumpCoordIndex)
    requires
        forall|i: int| 0 <= i < edges.len() ==> (#[trigger] edges[i]).0 != place,
    ensures
        spec_kids(edges, place) == Seq::<ClumpCoordIndex>::empty(),
    decreases edges.len(),
{
    if edges.len() > 0 {
        assert forall|i: int| 0 <= i < edges.drop_last().len() implies (
        #[trigger] edges.drop_last()[i]).0 != place by {
            assert(edges.drop_last()[i] == edges[i]);
        }
        lemma_kids_none(edges.drop_last(), place);
        assert(edges[edges.len() - 1].0 != place);
    }
}

/// The nodes of a tree in the order in which they are written.
pub open spec fn spec_tree_nodes(tree: EntryView) -> Seq<EntryView>
    decreases tree,
{
    seq![tree] + spec_forest_nodes(tree.children)
}

/// The nodes of a forest in the order in which they are written.
pub open spec fn spec_forest_nodes(forest: Seq<EntryView>) -> Seq<EntryView>
    decreases forest,
{
    if forest.len() == 0 {
        seq![]
    } else {
        spec_forest_nodes(forest.drop_last()) + spec_tree_nodes(forest.last())
    }
}

/// Whether the wire entries `entries` are the nodes `nodes`, each written
/// at its place.
pub open spec fn spec_written_as(
    nodes: Seq<EntryView>,
    entries: Seq<ChunkEntryView>,
    names: Seq<StructReferenceView>,
    clump: i16,
) -> bool {
    &&& nodes.len() == entries.len()
    &&& forall|i: int|
        0 <= i < nodes.len() ==> {
            &&& spec_place(names, (#[trigger] nodes[i]).entry_info, clump) is Ok
            &&& spec_chunk_entry(nodes[i], spec_place_of(nodes[i], names, clump)) is Ok
            &&& entries[i] == spec_chunk_entry(nodes[i], spec_place_of(nodes[i], names, clump))->Ok_0
            &&& entries[i].coord_index == spec_place_of(nodes[i], names, clump)
        }
}

/// The wire entries of a tree that can be written are its nodes, each
/// written at its place.
pub proof fn lemma_tree_nodes(tree: EntryView, names: Seq<StructReferenceView>, clump: i16)
    requires
        spec_flat_tree(tree, names, clump) is Ok,
    ensures
        spec_written_as(
            spec_tree_nodes(tree),
            spec_flat_tree(tree, names, clump)->Ok_0.0,
            names,
            clump,
        ),
    decreases tree,
{
    let place = spec_place_of(tree, names, clump);
    let own = spec_chunk_entry(tree, place)->Ok_0;
    lemma_forest_nodes(tree.children, names, clump, Some(place));
    lemma_flat_tree_is(tree, names, clump);
    let below = spec_flat_forest(tree.children, names, clump, Some(place))->Ok_0.0;
    let under = spec_forest_nodes(tree.children);
    let nodes = spec_tree_nodes(tree);
    let entries = spec_flat_tree(tree, names, clump)->Ok_0.0;
    assert(entries == seq![own] + below);
    assert forall|i: int| 0 <= i < nodes.len() implies {
        &&& spec_place(names, (#[trigger] nodes[i]).entry_info, clump) is Ok
        &&& spec_chunk_entry(nodes[i], spec_place_of(nodes[i], names, clump)) is Ok
        &&& entries[i] == spec_chunk_entry(nodes[i], spec_place_of(nodes[i], names, clump))->Ok_0
        &&& entries[i].coord_index == spec_place_of(nodes[i], names, clump)
    } by {
        if i > 0 {
            assert(nodes[i] == under[i - 1]);
            assert(entries[i] == below[i - 1]);
        } else {
            assert(spec_coords(entries)[0] == spec_tree_order(tree, names, clump)[0]);
        }
    }
}

/// The wire entries of a forest that can be written are its nodes, each
/// written at its place.
pub proof fn lemma_forest_nodes(
    forest: Seq<EntryView>,
    names: Seq<StructReferenceView>,
    clump: i16,
    parent: Option<ClumpCoordIndex>,
)
    requires
        spec_flat_forest(forest, names, clump, parent) is Ok,
    ensures
        spec_written_as(
            spec_forest_nodes(forest),
            spec_flat_forest(forest, names, clump, parent)->Ok_0.0,
            names,
            clump,
        ),
    decreases forest,
{
    if forest.len() > 0 {
        let rest = forest.drop_last();
        let last = forest.last();
        lemma_forest_nodes(rest, names, clump, parent);
        lemma_tree_nodes(last, names, clump);
        let front = spec_flat_forest(rest, names, clump, parent)->Ok_0.0;
        let tree = spec_flat_tree(last, names, clump)->Ok_0.0;
        let entries = spec_flat_forest(forest, names, clump, parent)->Ok_0.0;
        assert(entries == front + tree);
        let nodes = spec_forest_nodes(forest);
        let a = spec_forest_nodes(rest);
        let b = spec_tree_nodes(last);
        assert forall|i: int| 0 <= i < nodes.len() implies {
            &&& spec_place(names, (#[trigger] nodes[i]).entry_info, clump) is Ok
            &&& spec_chunk_entry(nodes[i], spec_place_of(nodes[i], names, clump)) is Ok
            &&& entries[i] == spec_chunk_entry(
                nodes[i],
                spec_place_of(nodes[i], names, clump),
            )->Ok_0
            &&& entries[i].coord_index == spec_place_of(nodes[i], names, clump)
        } by {
            if i < a.len() {
                assert(nodes[i] == a[i]);
                assert(entries[i] == front[i]);
            } else {
                assert(nodes[i] == b[i - a.len()]);
                assert(entries[i] == tree[i - a.len()]);
            }
        }
    }
}

/// A place is found in two runs of places where it is found in one of
/// them.
pub proof fn lemma_has_concat(a: Seq<ClumpCoordIndex>, b: Seq<ClumpCoordIndex>, place: ClumpCoordIndex)
    ensures
        spec_has(a + b, place) <==> spec_has(a, place) || spec_has(b, place),
{
    if spec_has(a + b, place) {
        let i = choose|i: int| 0 <= i < (a + b).len() && (a + b)[i] == place;
        if i < a.len() {
            assert(a[i] == place);
        } else {
            assert(b[i - a.len()] == place);
        }
    }
    if spec_has(a, place) {
        let i = choose|i: int| 0 <= i < a.len() && a[i] == place;
        assert((a + b)[i] == place);
    }
    if spec_has(b, place) {
        let i = choose|i: int| 0 <= i < b.len() && b[i] == place;
        assert((a + b)[a.len() + i] == place);
    }
}

/// Where two runs of places together hold no place twice, neither does
/// one of them, and no place is found in both.
pub proof fn lemma_distinct_concat(a: Seq<ClumpCoordIndex>, b: Seq<ClumpCoordIndex>)
    requires
        spec_distinct(a + b),
    ensures
        spec_distinct(a),
        spec_distinct(b),
        forall|place: ClumpCoordIndex| !(spec_has(a, place) && spec_has(b, place)),
{
    assert forall|i: int, j: int| 0 <= i < j < a.len() implies a[i] != a[j] by {
        assert((a + b)[i] == a[i] && (a + b)[j] == a[j]);
    }
    assert forall|i: int, j: int| 0 <= i < j < b.len() implies b[i] != b[j] by {
        assert((a + b)[a.len() + i] == b[i] && (a + b)[a.len() + j] == b[j]);
    }
    assert forall|place: ClumpCoordIndex| !(spec_has(a, place) && spec_has(b, place)) by {
        if spec_has(a, place) && spec_has(b, place) {
            let i = choose|i: int| 0 <= i < a.len() && a[i] == place;
            let j = choose|j: int| 0 <= j < b.len() && b[j] == place;
            assert((a + b)[i] == a[i] && (a + b)[a.len() + j] == b[j]);
        }
    }
}

/// Whether an edge leads to one of the places `order`, from `parent` or
/// from one of these places.
pub open spec fn spec_joins(
    order: Seq<ClumpCoordIndex>,
    parent: Option<ClumpCoordIndex>,
    edge: ParentChildIndex,
) -> bool {
    &&& spec_has(order, edge.1)
    &&& parent == Some(edge.0) || spec_has(order, edge.0)
}

/// Every edge of a forest leads to one of its places, from the parent of
/// the forest or from one of its places.
pub proof fn lemma_forest_edges_join(
    forest: Seq<EntryView>,
    names: Seq<StructReferenceView>,
    clump: i16,
    parent: Option<ClumpCoordIndex>,
)
    ensures
        forall|a: int|
            0 <= a < spec_forest_edges(forest, names, clump, parent).len() ==> spec_joins(
                spec_forest_order(forest, names, clump),
                parent,
                #[trigger] spec_forest_edges(forest, names, clump, parent)[a],
            ),
    decreases forest,
{
    if forest.len() > 0 {
        let rest = forest.drop_last();
        let last = forest.last();
        let place = spec_place_of(last, names, clump);
        lemma_forest_edges_join(rest, names, clump, parent);
        lemma_forest_edges_join(last.children, names, clump, Some(place));
        let e1 = spec_forest_edges(rest, names, clump, parent);
        let e2 = spec_edge_to(parent, place);
        let e3 = spec_tree_edges(last, names, clump);
        let edges = spec_forest_edges(forest, names, clump, parent);
        let o1 = spec_forest_order(rest, names, clump);
        let o2 = spec_tree_order(last, names, clump);
        let o3 = spec_forest_order(last.children, names, clump);
        let order = spec_forest_order(forest, names, clump);
        assert(o2[0] == place);
        assert(spec_has(o2, place));
        assert(e3 == spec_forest_edges(last.children, names, clump, Some(place)));
        assert(o2 == seq![place] + o3);
        assert forall|a: int| 0 <= a < edges.len() implies spec_joins(
            order,
            parent,
            #[trigger] edges[a],
        ) by {
            let edge = edges[a];
            lemma_has_concat(o1, o2, edge.0);
            lemma_has_concat(o1, o2, edge.1);
            lemma_has_concat(seq![place], o3, edge.0);
            lemma_has_concat(seq![place], o3, edge.1);
            if a < e1.len() {
                assert(edge == e1[a]);
            } else if a < e1.len() + e2.len() {
                assert(edge == e2[a - e1.len()]);
            } else {
                assert(edge == e3[a - e1.len() - e2.len()]);
                assert(spec_joins(o3, Some(place), e3[a - e1.len() - e2.len()]));
            }
        }
    }
}

/// A place that is neither the parent of a forest nor one of its places
/// has no children among its edges.
pub proof fn lemma_forest_no_kids(
    forest: Seq<EntryView>,
    names: Seq<StructReferenceView>,
    clump: i16,
    parent: Option<ClumpCoordIndex>,
    place: ClumpCoordIndex,
)
    requires
        parent != Some(place),
        !spec_has(spec_forest_order(forest, names, clump), place),
    ensures
        spec_kids(spec_forest_edges(forest, names, clump, parent), place) == Seq::<
            ClumpCoordIndex,
        >::empty(),
{
    lemma_forest_edges_join(forest, names, clump, parent);
    let edges = spec_forest_edges(forest, names, clump, parent);
    assert forall|i: int| 0 <= i < edges.len() implies (#[trigger] edges[i]).0 != place by {
        assert(spec_joins(spec_forest_order(forest, names, clump), parent, edges[i]));
    }
    lemma_kids_none(edges, place);
}

/// The places of the roots of a forest.
pub open spec fn spec_root_places(
    forest: Seq<EntryView>,
    names: Seq<StructReferenceView>,
    clump: i16,
) -> Seq<ClumpCoordIndex> {
    Seq::new(forest.len(), |k: int| spec_place_of(forest[k], names, clump))
}

/// The children of the parent of a forest, among the edges of the forest,
/// are the roots of the forest, where the parent is none of its places.
pub proof fn lemma_own_kids(
    forest: Seq<EntryView>,
    names: Seq<StructReferenceView>,
    clump: i16,
    parent: ClumpCoordIndex,
)
    requires
        !spec_has(spec_forest_order(forest, names, clump), parent),
    ensures
        spec_kids(spec_forest_edges(forest, names, clump, Some(parent)), parent)
            == spec_root_places(forest, names, clump),
    decreases forest.len(),
{
    if forest.len() == 0 {
        assert(spec_root_places(forest, names, clump) =~= seq![]);
    } else {
        let rest = forest.drop_last();
        let last = forest.last();
        let place = spec_place_of(last, names, clump);
        let e1 = spec_forest_edges(rest, names, clump, Some(parent));
        let e2 = spec_edge_to(Some(parent), place);
        let e3 = spec_tree_edges(last, names, clump);
        let o1 = spec_forest_order(rest, names, clump);
        let o2 = spec_tree_order(last, names, clump);
        let o3 = spec_forest_order(last.children, names, clump);
        lemma_has_concat(o1, o2, parent);
        lemma_has_concat(seq![place], o3, parent);
        assert(seq![place][0] == place);
        lemma_own_kids(rest, names, clump, parent);
        lemma_forest_no_kids(last.children, names, clump, Some(place), parent);
        lemma_kids_concat(e1 + e2, e3, parent);
        lemma_kids_concat(e1, e2, parent);
        assert(e2.drop_last() =~= seq![]);
        assert(spec_kids(e2.drop_last(), parent) =~= seq![]);
        assert(spec_kids(e2, parent) =~= seq![place]);
        assert(e3 == spec_forest_edges(last.children, names, clump, Some(place)));
        assert(o2 == seq![place] + o3);
        assert(spec_root_places(forest, names, clump) =~= spec_root_places(rest, names, clump).push(
            place,
        )) by {
            assert forall|k: int| 0 <= k < rest.len() implies rest[k] == forest[k] by {}
        }
    }
}

/// The places of a forest are the places of its nodes, one for one.
pub proof fn lemma_order_of_nodes(forest: Seq<EntryView>, names: Seq<StructReferenceView>, clump: i16)
    ensures
        spec_forest_order(forest, names, clump).len() == spec_forest_nodes(forest).len(),
        forall|i: int|
            0 <= i < spec_forest_nodes(forest).len() ==> #[trigger] spec_forest_order(
                forest,
                names,
                clump,
            )[i] == spec_place_of(spec_forest_nodes(forest)[i], names, clump),
    decreases forest,
{
    if forest.len() > 0 {
        let rest = forest.drop_last();
        let last = forest.last();
        lemma_order_of_nodes(rest, names, clump);
        lemma_order_of_nodes(last.children, names, clump);
        let o1 = spec_forest_order(rest, names, clump);
        let o3 = spec_forest_order(last.children, names, clump);
        let n1 = spec_forest_nodes(rest);
        let n3 = spec_forest_nodes(last.children);
        let order = spec_forest_order(forest, names, clump);
        let nodes = spec_forest_nodes(forest);
        assert(spec_tree_order(last, names, clump) == seq![spec_place_of(last, names, clump)] + o3);
        assert(spec_tree_nodes(last) == seq![last] + n3);
        assert(order =~= o1 + (seq![spec_place_of(last, names, clump)] + o3));
        assert(nodes =~= n1 + (seq![last] + n3));
        assert forall|i: int| 0 <= i < nodes.len() implies #[trigger] order[i] == spec_place_of(
            nodes[i],
            names,
            clump,
        ) by {
            if i < n1.len() {
                assert(order[i] == o1[i]);
            } else if i > n1.len() {
                assert(order[i] == o3[i - n1.len() - 1]);
                assert(nodes[i] == n3[i - n1.len() - 1]);
            }
        }
    }
}

/// Among the edges of a forest whose places are all different, and none of
/// them the place of its parent, the children of each node are the roots
/// of the trees below it, in their order.
pub proof fn lemma_forest_kids(
    forest: Seq<EntryView>,
    names: Seq<StructReferenceView>,
    clump: i16,
    parent: Option<ClumpCoordIndex>,
)
    requires
        spec_distinct(spec_forest_order(forest, names, clump)),
        parent is Some ==> !spec_has(spec_forest_order(forest, names, clump), parent->Some_0),
    ensures
        spec_forest_order(forest, names, clump).len() == spec_forest_nodes(forest).len(),
        forall|i: int|
            0 <= i < spec_forest_nodes(forest).len() ==> spec_kids(
                spec_forest_edges(forest, names, clump, parent),
                #[trigger] spec_forest_order(forest, names, clump)[i],
            ) == spec_root_places(spec_forest_nodes(forest)[i].children, names, clump),
    decreases forest,
{
    lemma_order_of_nodes(forest, names, clump);
    if forest.len() > 0 {
        let rest = forest.drop_last();
        let last = forest.last();
        let place = spec_place_of(last, names, clump);
        let e1 = spec_forest_edges(rest, names, clump, parent);
        let e2 = spec_edge_to(parent, place);
        let e3 = spec_tree_edges(last, names, clump);
        let edges = spec_forest_edges(forest, names, clump, parent);
        let o1 = spec_forest_order(rest, names, clump);
        let o2 = spec_tree_order(last, names, clump);
        let o3 = spec_forest_order(last.children, names, clump);
        let order = spec_forest_order(forest, names, clump);
        let n1 = spec_forest_nodes(rest);
        let n3 = spec_forest_nodes(last.children);
        let nodes = spec_forest_nodes(forest);
        assert(e3 == spec_forest_edges(last.children, names, clump, Some(place)));
        assert(o2 == seq![place] + o3);
        assert(spec_tree_nodes(last) == seq![last] + n3);
        assert(nodes =~= n1 + (seq![last] + n3));
        assert(seq![place][0] == place);
        lemma_order_of_nodes(rest, names, clump);
        lemma_order_of_nodes(last.children, names, clump);
        lemma_distinct_concat(o1, o2);
        lemma_distinct_concat(seq![place], o3);
        if parent is Some {
            lemma_has_concat(o1, o2, parent->Some_0);
            lemma_has_concat(seq![place], o3, parent->Some_0);
        }
        lemma_forest_kids(rest, names, clump, parent);
        lemma_forest_kids(last.children, names, clump, Some(place));
        lemma_own_kids(last.children, names, clump, place);
        assert forall|i: int| 0 <= i < nodes.len() implies spec_kids(edges, #[trigger] order[i])
            == spec_root_places(nodes[i].children, names, clump) by {
            let at = order[i];
            lemma_kids_concat(e1 + e2, e3, at);
            lemma_kids_concat(e1, e2, at);
            lemma_has_concat(o1, o2, at);
            lemma_has_concat(seq![place], o3, at);
            assert(parent != Some(at));
            assert(spec_kids(e2, at) =~= seq![]) by {
                lemma_kids_none(e2, at);
            }
            if i < n1.len() {
                assert(at == o1[i]);
                assert(nodes[i] == n1[i]);
                assert(spec_has(o1, at));
                lemma_forest_no_kids(last.children, names, clump, Some(place), at);
                assert(spec_kids(edges, at) =~= spec_kids(e1, at));
            } else {
                assert(at == o2[i - n1.len()]);
                assert(spec_has(o2, at));
                lemma_forest_no_kids(rest, names, clump, parent, at);
                assert(spec_kids(edges, at) =~= spec_kids(e3, at));
                if i > n1.len() {
                    assert(at == o3[i - n1.len() - 1]);
                    assert(nodes[i] == n3[i - n1.len() - 1]);
                }
            }
        }
    }
}

/// No place is the child of two edges where none is among two runs of
/// edges and none is a child in both.
pub proof fn lemma_single_parent_concat(a: Seq<ParentChildIndex>, b: Seq<ParentChildIndex>)
    requires
        spec_single_parent(a),
        spec_single_parent(b),
        forall|i: int, j: int| 0 <= i < a.len() && 0 <= j < b.len() ==> a[i].1 != b[j].1,
    ensures
        spec_single_parent(a + b),
{
    assert forall|i: int, j: int| 0 <= i < j < (a + b).len() implies (a + b)[i].1 != (a + b)[j].1 by {
        if j < a.len() {
            assert(a[i].1 != a[j].1);
        } else if i < a.len() {
            assert(a[i].1 != b[j - a.len()].1);
        } else {
            assert(b[i - a.len()].1 != b[j - a.len()].1);
        }
    }
}

/// A place is a child among two runs of edges where it is one among one of
/// them.
pub proof fn lemma_is_child_concat(
    a: Seq<ParentChildIndex>,
    b: Seq<ParentChildIndex>,
    place: ClumpCoordIndex,
)
    ensures
        spec_is_child(a + b, place) <==> spec_is_child(a, place) || spec_is_child(b, place),
{
    if spec_is_child(a + b, place) {
        let i = choose|i: int| 0 <= i < (a + b).len() && (a + b)[i].1 == place;
        if i < a.len() {
            assert(a[i].1 == place);
        } else {
            assert(b[i - a.len()].1 == place);
        }
    }
    if spec_is_child(a, place) {
        let i = choose|i: int| 0 <= i < a.len() && a[i].1 == place;
        assert((a + b)[i].1 == place);
    }
    if spec_is_child(b, place) {
        let i = choose|i: int| 0 <= i < b.len() && b[i].1 == place;
        assert((a + b)[a.len() + i].1 == place);
    }
}

/// No place is the child of two edges of a forest whose places are all
/// different.
pub proof fn lemma_forest_single_parent(
    forest: Seq<EntryView>,
    names: Seq<StructReferenceView>,
    clump: i16,
    parent: Option<ClumpCoordIndex>,
)
    requires
        spec_distinct(spec_forest_order(forest, names, clump)),
    ensures
        spec_single_parent(spec_forest_edges(forest, names, clump, parent)),
    decreases forest,
{
    if forest.len() > 0 {
        let rest = forest.drop_last();
        let last = forest.last();
        let place = spec_place_of(last, names, clump);
        let e1 = spec_forest_edges(rest, names, clump, parent);
        let e2 = spec_edge_to(parent, place);
        let e3 = spec_tree_edges(last, names, clump);
        let o1 = spec_forest_order(rest, names, clump);
        let o2 = spec_tree_order(last, names, clump);
        let o3 = spec_forest_order(last.children, names, clump);
        assert(e3 == spec_forest_edges(last.children, names, clump, Some(place)));
        assert(o2 == seq![place] + o3);
        assert(seq![place][0] == place);
        lemma_distinct_concat(o1, o2);
        lemma_distinct_concat(seq![place], o3);
        lemma_has_concat(seq![place], o3, place);
        lemma_forest_single_parent(rest, names, clump, parent);
        lemma_forest_single_parent(last.children, names, clump, Some(place));
        lemma_forest_edges_join(rest, names, clump, parent);
        lemma_forest_edges_join(last.children, names, clump, Some(place));
        assert forall|i: int, j: int| 0 <= i < e1.len() && 0 <= j < e2.len() implies e1[i].1
            != e2[j].1 by {
            assert(spec_joins(o1, parent, e1[i]));
        }
        lemma_single_parent_concat(e1, e2);
        assert forall|i: int, j: int| 0 <= i < (e1 + e2).len() && 0 <= j < e3.len() implies (e1
            + e2)[i].1 != e3[j].1 by {
            assert(spec_joins(o3, Some(place), e3[j]));
            lemma_has_concat(seq![place], o3, e3[j].1);
            if i < e1.len() {
                assert(spec_joins(o1, parent, e1[i]));
            } else {
                assert((e1 + e2)[i].1 == place);
            }
        }
        lemma_single_parent_concat(e1 + e2, e3);
    }
}

/// Every place of a forest below a parent is a child among its edges.
pub proof fn lemma_forest_all_children(
    forest: Seq<EntryView>,
    names: Seq<StructReferenceView>,
    clump: i16,
    parent: ClumpCoordIndex,
)
    ensures
        forall|i: int|
            0 <= i < spec_forest_order(forest, names, clump).len() ==> spec_is_child(
                spec_forest_edges(forest, names, clump, Some(parent)),
                #[trigger] spec_forest_order(forest, names, clump)[i],
            ),
    decreases forest,
{
    if forest.len() > 0 {
        let rest = forest.drop_last();
        let last = forest.last();
        let place = spec_place_of(last, names, clump);
        let e1 = spec_forest_edges(rest, names, clump, Some(parent));
        let e2 = spec_edge_to(Some(parent), place);
        let e3 = spec_tree_edges(last, names, clump);
        let edges = spec_forest_edges(forest, names, clump, Some(parent));
        let o1 = spec_forest_order(rest, names, clump);
        let o3 = spec_forest_order(last.children, names, clump);
        let order = spec_forest_order(forest, names, clump);
        assert(e3 == spec_forest_edges(last.children, names, clump, Some(place)));
        assert(spec_tree_order(last, names, clump) == seq![place] + o3);
        assert(order =~= o1 + (seq![place] + o3));
        lemma_forest_all_children(rest, names, clump, parent);
        lemma_forest_all_children(last.children, names, clump, place);
        assert(e2[0].1 == place);
        assert(spec_is_child(e2, place));
        assert forall|i: int| 0 <= i < order.len() implies spec_is_child(
            edges,
            #[trigger] order[i],
        ) by {
            let at = order[i];
            lemma_is_child_concat(e1 + e2, e3, at);
            lemma_is_child_concat(e1, e2, at);
            if i < o1.len() {
                assert(at == o1[i]);
            } else if i > o1.len() {
                assert(at == o3[i - o1.len() - 1]);
            }
        }
    }
}

/// Among the edges of a forest without a parent, whose places are all
/// different, no root is a child, and every place below a root is one.
pub proof fn lemma_forest_roots_free(
    forest: Seq<EntryView>,
    names: Seq<StructReferenceView>,
    clump: i16,
)
    requires
        spec_distinct(spec_forest_order(forest, names, clump)),
    ensures
        forall|k: int|
            0 <= k < forest.len() ==> !spec_is_child(
                spec_forest_edges(forest, names, clump, None),
                #[trigger] spec_place_of(forest[k], names, clump),
            ),
        forall|k: int, j: int|
            0 <= k < forest.len() && 0 <= j < spec_forest_order(
                forest[k].children,
                names,
                clump,
            ).len() ==> spec_is_child(
                spec_forest_edges(forest, names, clump, None),
                #[trigger] spec_forest_order(forest[k].children, names, clump)[j],
            ),
    decreases forest.len(),
{
    if forest.len() > 0 {
        let rest = forest.drop_last();
        let last = forest.last();
        let place = spec_place_of(last, names, clump);
        let none = None::<ClumpCoordIndex>;
        let e1 = spec_forest_edges(rest, names, clump, none);
        let e2 = spec_edge_to(none, place);
        let e3 = spec_tree_edges(last, names, clump);
        let edges = spec_forest_edges(forest, names, clump, none);
        let o1 = spec_forest_order(rest, names, clump);
        let o2 = spec_tree_order(last, names, clump);
        let o3 = spec_forest_order(last.children, names, clump);
        assert(e3 == spec_forest_edges(last.children, names, clump, Some(place)));
        assert(o2 == seq![place] + o3);
        assert(seq![place][0] == place);
        assert(edges =~= e1 + e3);
        lemma_distinct_concat(o1, o2);
        lemma_distinct_concat(seq![place], o3);
        lemma_forest_roots_free(rest, names, clump);
        lemma_forest_edges_join(rest, names, clump, none);
        lemma_forest_edges_join(last.children, names, clump, Some(place));
        lemma_forest_all_children(last.children, names, clump, place);
        lemma_order_of_nodes(rest, names, clump);
        assert forall|k: int| 0 <= k < forest.len() implies !spec_is_child(
            edges,
            #[trigger] spec_place_of(forest[k], names, clump),
        ) by {
            let at = spec_place_of(forest[k], names, clump);
            lemma_is_child_concat(e1, e3, at);
            lemma_has_concat(seq![place], o3, at);
            if spec_is_child(e3, at) {
                let a = choose|a: int| 0 <= a < e3.len() && e3[a].1 == at;
                assert(spec_joins(o3, Some(place), e3[a]));
            }
            if spec_is_child(e1, at) {
                let a = choose|a: int| 0 <= a < e1.len() && e1[a].1 == at;
                assert(spec_joins(o1, none, e1[a]));
            }
            if k < rest.len() {
                assert(rest[k] == forest[k]);
                lemma_root_is_placed(rest, names, clump, k);
            } else {
                assert(spec_has(seq![place], at));
            }
        }
        assert forall|k: int, j: int|
            0 <= k < forest.len() && 0 <= j < spec_forest_order(
                forest[k].children,
                names,
                clump,
            ).len() implies spec_is_child(
            edges,
            #[trigger] spec_forest_order(forest[k].children, names, clump)[j],
        ) by {
            let at = spec_forest_order(forest[k].children, names, clump)[j];
            lemma_is_child_concat(e1, e3, at);
            if k < rest.len() {
                assert(rest[k] == forest[k]);
            }
        }
    }
}

/// The place of a root of a forest is one of the places of the forest.
pub proof fn lemma_root_is_placed(
    forest: Seq<EntryView>,
    names: Seq<StructReferenceView>,
    clump: i16,
    k: int,
)
    requires
        0 <= k < forest.len(),
    ensures
        spec_has(spec_forest_order(forest, names, clump), spec_place_of(forest[k], names, clump)),
    decreases forest.len(),
{
    let rest = forest.drop_last();
    let last = forest.last();
    let place = spec_place_of(last, names, clump);
    let o1 = spec_forest_order(rest, names, clump);
    let o2 = spec_tree_order(last, names, clump);
    lemma_has_concat(o1, o2, spec_place_of(forest[k], names, clump));
    if k < rest.len() {
        assert(rest[k] == forest[k]);
        lemma_root_is_placed(rest, names, clump, k);
    } else {
        assert(o2[0] == place);
    }
}

/// The roots among two runs of places are the roots among the first and
/// then the roots among the second.
pub proof fn lemma_roots_concat(
    a: Seq<ClumpCoordIndex>,
    b: Seq<ClumpCoordIndex>,
    edges: Seq<ParentChildIndex>,
    clump: int,
)
    ensures
        spec_roots(a + b, edges, clump) == spec_roots(a, edges, clump) + spec_roots(
            b,
            edges,
            clump,
        ),
    decreases b.len(),
{
    if b.len() == 0 {
        assert(a + b =~= a);
        assert(spec_roots(a, edges, clump) + spec_roots(b, edges, clump) =~= spec_roots(
            a,
            edges,
            clump,
        ));
    } else {
        lemma_roots_concat(a, b.drop_last(), edges, clump);
        assert((a + b).drop_last() =~= a + b.drop_last());
        assert((a + b).last() == b.last());
        if b.last().0 == clump && !spec_is_child(edges, b.last()) {
            assert((spec_roots(a, edges, clump) + spec_roots(b.drop_last(), edges, clump)).push(
                b.last(),
            ) =~= spec_roots(a, edges, clump) + spec_roots(b.drop_last(), edges, clump).push(
                b.last(),
            ));
        }
    }
}

/// Places of which each lies in another clump or is a child hold no root
/// of the clump.
pub proof fn lemma_roots_none(coords: Seq<ClumpCoordIndex>, edges: Seq<ParentChildIndex>, clump: int)
    requires
        forall|i: int|
            0 <= i < coords.len() ==> (#[trigger] coords[i]).0 != clump || spec_is_child(
                edges,
                coords[i],
            ),
    ensures
        spec_roots(coords, edges, clump) == Seq::<ClumpCoordIndex>::empty(),
    decreases coords.len(),
{
    if coords.len() > 0 {
        assert forall|i: int| 0 <= i < coords.drop_last().len() implies (
        #[trigger] coords.drop_last()[i]).0 != clump || spec_is_child(
            edges,
            coords.drop_last()[i],
        ) by {
            assert(coords.drop_last()[i] == coords[i]);
        }
        lemma_roots_none(coords.drop_last(), edges, clump);
        assert(coords[coords.len() - 1].0 != clump || spec_is_child(
            edges,
            coords[coords.len() - 1],
        ));
    }
}

/// Where no root of a forest is a child and every place below a root is
/// one, the roots among the places of the forest are the places of its
/// roots, in their order.
pub proof fn lemma_roots_of_forest(
    forest: Seq<EntryView>,
    names: Seq<StructReferenceView>,
    clump: i16,
    edges: Seq<ParentChildIndex>,
)
    requires
        forall|k: int|
            0 <= k < forest.len() ==> (#[trigger] spec_place_of(forest[k], names, clump)).0
                == clump && !spec_is_child(edges, spec_place_of(forest[k], names, clump)),
        forall|k: int, j: int|
            0 <= k < forest.len() && 0 <= j < spec_forest_order(
                forest[k].children,
                names,
                clump,
            ).len() ==> spec_is_child(
                edges,
                #[trigger] spec_forest_order(forest[k].children, names, clump)[j],
            ),
    ensures
        spec_roots(spec_forest_order(forest, names, clump), edges, clump as int)
            == spec_root_places(forest, names, clump),
    decreases forest.len(),
{
    if forest.len() == 0 {
        assert(spec_root_places(forest, names, clump) =~= seq![]);
    } else {
        let rest = forest.drop_last();
        let last = forest.last();
        let place = spec_place_of(last, names, clump);
        let o1 = spec_forest_order(rest, names, clump);
        let o2 = spec_tree_order(last, names, clump);
        let o3 = spec_forest_order(last.children, names, clump);
        assert(o2 == seq![place] + o3);
        assert forall|k: int| 0 <= k < rest.len() implies rest[k] == forest[k] by {}
        lemma_roots_of_forest(rest, names, clump, edges);
        lemma_roots_concat(o1, o2, edges, clump as int);
        lemma_roots_concat(seq![place], o3, edges, clump as int);
        assert(spec_place_of(forest[forest.len() - 1], names, clump) == place);
        assert(seq![place].drop_last() =~= seq![]);
        assert(spec_roots(seq![place].drop_last(), edges, clump as int) =~= seq![]);
        assert(spec_roots(seq![place], edges, clump as int) =~= seq![place]);
        assert forall|j: int| 0 <= j < o3.len() implies (#[trigger] o3[j]).0 != clump as int
            || spec_is_child(edges, o3[j]) by {
            assert(spec_is_child(
                edges,
                spec_forest_order(forest[forest.len() - 1].children, names, clump)[j],
            ));
        }
        lemma_roots_none(o3, edges, clump as int);
        assert(spec_root_places(forest, names, clump) =~= spec_root_places(rest, names, clump).push(
            place,
        ));
    }
}

/// Whether every edge of `part` is one of `edges`.
pub open spec fn spec_among(edges: Seq<ParentChildIndex>, part: Seq<ParentChildIndex>) -> bool {
    forall|a: int| 0 <= a < part.len() ==> spec_edge_in(edges, #[trigger] part[a])
}

/// Whether `edge` is one of `edges`.
pub open spec fn spec_edge_in(edges: Seq<ParentChildIndex>, edge: ParentChildIndex) -> bool {
    exists|b: int| 0 <= b < edges.len() && edges[b] == edge
}

/// Both of two runs of edges are among the edges that the two together
/// are among.
pub proof fn lemma_among_concat(
    edges: Seq<ParentChildIndex>,
    a: Seq<ParentChildIndex>,
    b: Seq<ParentChildIndex>,
)
    requires
        spec_among(edges, a + b),
    ensures
        spec_among(edges, a),
        spec_among(edges, b),
{
    assert forall|i: int| 0 <= i < a.len() implies spec_edge_in(edges, #[trigger] a[i]) by {
        assert((a + b)[i] == a[i]);
    }
    assert forall|i: int| 0 <= i < b.len() implies spec_edge_in(edges, #[trigger] b[i]) by {
        assert((a + b)[a.len() + i] == b[i]);
    }
}

/// A place from which a root is reached in some steps is one from which it
/// is reached in more.
pub proof fn lemma_climbs_more(
    edges: Seq<ParentChildIndex>,
    place: ClumpCoordIndex,
    fuel: nat,
    more: nat,
)
    requires
        spec_climbs(edges, place, fuel),
        fuel <= more,
    ensures
        spec_climbs(edges, place, more),
    decreases fuel,
{
    if spec_is_child(edges, place) {
        lemma_climbs_more(edges, spec_parent(edges, place), (fuel - 1) as nat, (more - 1) as nat);
    }
}

/// From every place of a forest below a parent a root is reached, where
/// one is reached from the parent: in as many steps more as the forest
/// has places.
pub proof fn lemma_forest_climbs(
    forest: Seq<EntryView>,
    names: Seq<StructReferenceView>,
    clump: i16,
    parent: ClumpCoordIndex,
    edges: Seq<ParentChildIndex>,
    fuel: nat,
)
    requires
        spec_single_parent(edges),
        spec_climbs(edges, parent, fuel),
        spec_among(edges, spec_forest_edges(forest, names, clump, Some(parent))),
    ensures
        forall|i: int|
            0 <= i < spec_forest_order(forest, names, clump).len() ==> spec_climbs(
                edges,
                #[trigger] spec_forest_order(forest, names, clump)[i],
                fuel + spec_forest_order(forest, names, clump).len(),
            ),
    decreases forest,
{
    if forest.len() > 0 {
        let rest = forest.drop_last();
        let last = forest.last();
        let place = spec_place_of(last, names, clump);
        let e1 = spec_forest_edges(rest, names, clump, Some(parent));
        let e2 = spec_edge_to(Some(parent), place);
        let e3 = spec_tree_edges(last, names, clump);
        let o1 = spec_forest_order(rest, names, clump);
        let o3 = spec_forest_order(last.children, names, clump);
        let order = spec_forest_order(forest, names, clump);
        assert(e3 == spec_forest_edges(last.children, names, clump, Some(place)));
        assert(spec_tree_order(last, names, clump) == seq![place] + o3);
        assert(order =~= o1 + (seq![place] + o3));
        lemma_among_concat(edges, e1 + e2, e3);
        lemma_among_concat(edges, e1, e2);
        assert(spec_edge_in(edges, e2[0]));
        let b = choose|b: int| 0 <= b < edges.len() && edges[b] == e2[0];
        lemma_parent_unique(edges, b);
        assert(spec_climbs(edges, place, fuel + 1));
        lemma_forest_climbs(rest, names, clump, parent, edges, fuel);
        lemma_forest_climbs(last.children, names, clump, place, edges, fuel + 1);
        assert forall|i: int| 0 <= i < order.len() implies spec_climbs(
            edges,
            #[trigger] order[i],
            fuel + order.len(),
        ) by {
            if i < o1.len() {
                assert(order[i] == o1[i]);
                lemma_climbs_more(edges, order[i], fuel + o1.len(), fuel + order.len());
            } else if i == o1.len() {
                lemma_climbs_more(edges, order[i], fuel + 1, fuel + order.len());
            } else {
                assert(order[i] == o3[i - o1.len() - 1]);
                lemma_climbs_more(edges, order[i], fuel + 1 + o3.len(), fuel + order.len());
            }
        }
    }
}

/// From every place of a forest without a parent a root is reached in no
/// more steps than the forest has places, where no root of the forest is a
/// child.
pub proof fn lemma_clump_climbs(
    forest: Seq<EntryView>,
    names: Seq<StructReferenceView>,
    clump: i16,
    edges: Seq<ParentChildIndex>,
)
    requires
        spec_single_parent(edges),
        spec_among(edges, spec_forest_edges(forest, names, clump, None)),
        forall|k: int|
            0 <= k < forest.len() ==> !spec_is_child(
                edges,
                #[trigger] spec_place_of(forest[k], names, clump),
            ),
    ensures
        forall|i: int|
            0 <= i < spec_forest_order(forest, names, clump).len() ==> spec_climbs(
                edges,
                #[trigger] spec_forest_order(forest, names, clump)[i],
                spec_forest_order(forest, names, clump).len(),
            ),
    decreases forest.len(),
{
    if forest.len() > 0 {
        let rest = forest.drop_last();
        let last = forest.last();
        let place = spec_place_of(last, names, clump);
        let none = None::<ClumpCoordIndex>;
        let e1 = spec_forest_edges(rest, names, clump, none);
        let e3 = spec_tree_edges(last, names, clump);
        let o1 = spec_forest_order(rest, names, clump);
        let o3 = spec_forest_order(last.children, names, clump);
        let order = spec_forest_order(forest, names, clump);
        assert(e3 == spec_forest_edges(last.children, names, clump, Some(place)));
        assert(spec_tree_order(last, names, clump) == seq![place] + o3);
        assert(order =~= o1 + (seq![place] + o3));
        assert(spec_forest_edges(forest, names, clump, none) =~= e1 + e3);
        lemma_among_concat(edges, e1, e3);
        assert forall|k: int| 0 <= k < rest.len() implies rest[k] == forest[k] by {}
        assert(spec_place_of(forest[forest.len() - 1], names, clump) == place);
        assert(spec_climbs(edges, place, 0));
        lemma_clump_climbs(rest, names, clump, edges);
        lemma_forest_climbs(last.children, names, clump, place, edges, 0);
        assert forall|i: int| 0 <= i < order.len() implies spec_climbs(
            edges,
            #[trigger] order[i],
            order.len(),
        ) by {
            if i < o1.len() {
                assert(order[i] == o1[i]);
                lemma_climbs_more(edges, order[i], o1.len(), order.len());
            } else if i == o1.len() {
                lemma_climbs_more(edges, order[i], 0, order.len());
            } else {
                assert(order[i] == o3[i - o1.len() - 1]);
                lemma_climbs_more(edges, order[i], o3.len(), order.len());
            }
        }
    }
}

} // verus!
