//! How the entries and the trees of a written animation are rebuilt.

use vstd::prelude::*;

use crate::error::NuccError;
use crate::nucc::StructReferenceView;
use crate::nucc::nucc_anm::curve::Channel;
use crate::nucc::nucc_anm::curve::CurveView;
use crate::nucc::nucc_anm::curve::lemma_curve_round_trip;
use crate::nucc::nucc_anm::curve::spec_curve;
use crate::nucc::nucc_anm::curve::spec_interp;
use crate::nucc::nucc_anm::curve::spec_write_format;
use crate::nucc::nucc_anm::entry::EntryView;
use crate::nucc::nucc_anm::entry::spec_channels;
use crate::nucc::nucc_anm::entry::spec_curves_of;
use crate::nucc::nucc_anm::entry::spec_entry_of;
use crate::nucc::nucc_anm::entry::spec_no_info;
use crate::nucc::nucc_anm::flatten::lemma_chunk_curves_sized;
use crate::nucc::nucc_anm::flatten::spec_chunk_curves;
use crate::nucc::nucc_anm::flatten::spec_chunk_entry;
use crate::nucc::nucc_anm::flatten::spec_curve_index;
use crate::nucc::nucc_anm::flatten::spec_nth;
use crate::nucc::nucc_anm::graph::spec_entry_name;
use crate::nucc::nucc_anm::graph::spec_find;
use crate::nucc::nucc_anm::graph::spec_forest;
use crate::nucc::nucc_anm::graph::spec_kids;
use crate::nucc::nucc_anm::graph::spec_tree;
use crate::nucc::nucc_anm::order::spec_forest_nodes;
use crate::nucc::nucc_anm::order::spec_place_of;
use crate::nucc::nucc_anm::order::spec_root_places;
use crate::nucc::nucc_anm::order::spec_tree_nodes;
use crate::nucc_chunk::nucc_chunk_anm::clump::ClumpCoordIndex;
use crate::nucc_chunk::nucc_chunk_anm::clump::ParentChildIndex;

verus! {

/// A curve with the interpolation that goes with the format in which it is
/// written.
pub open spec fn spec_settled_curve(curve: CurveView) -> CurveView {
    CurveView {
        interp_type: spec_interp(spec_write_format(curve.keyframes)->Some_0)->Some_0,
        ..curve
    }
}

/// Curves, each with the interpolation that goes with the format in which
/// it is written.
pub open spec fn spec_settled_curves(curves: Seq<CurveView>) -> Seq<CurveView> {
    Seq::new(curves.len(), |i: int| spec_settled_curve(curves[i]))
}

/// An entry as it is rebuilt from what it is written as: without an
/// identity, without children, and its curves settled.
pub open spec fn spec_settled_entry(entry: EntryView) -> EntryView {
    EntryView {
        entry_info: spec_no_info(),
        entry_format: entry.entry_format,
        curves: spec_settled_curves(entry.curves),
        children: seq![],
    }
}

/// The place that `spec_nth` finds lies in the channel list and holds the
/// channel that was looked for.
pub proof fn lemma_nth(channels: Seq<Channel>, channel: Channel, n: nat, from: int)
    requires
        0 <= from,
        spec_nth(channels, channel, n, from) is Some,
    ensures
        from <= spec_nth(channels, channel, n, from)->Some_0 < channels.len(),
        channels[spec_nth(channels, channel, n, from)->Some_0] == channel,
    decreases channels.len() - from,
{
    if channels[from] == channel {
        if n > 0 {
            lemma_nth(channels, channel, (n - 1) as nat, from + 1);
        }
    } else {
        lemma_nth(channels, channel, n, from + 1);
    }
}

/// The `j`-th curve of an entry is written under a curve index that picks
/// its channel, and is decoded again as the same curve, settled.
pub proof fn lemma_chunk_curves_element(
    channels: Seq<Channel>,
    curves: Seq<CurveView>,
    upto: int,
    j: int,
)
    requires
        0 <= j < upto <= curves.len(),
        channels.len() <= u16::MAX,
        spec_chunk_curves(channels, curves, upto) is Ok,
    ensures
        ({
            let header = spec_chunk_curves(channels, curves, upto)->Ok_0.0[j];
            let run = spec_chunk_curves(channels, curves, upto)->Ok_0.1[j];
            &&& header.curve_index < channels.len()
            &&& channels[header.curve_index as int] == curves[j].channel
            &&& spec_curve(curves[j].channel, header, run) == Ok::<CurveView, NuccError>(
                spec_settled_curve(curves[j]),
            )
        }),
    decreases upto,
{
    lemma_chunk_curves_sized(channels, curves, upto - 1);
    if j == upto - 1 {
        let index = spec_curve_index(channels, curves, j)->Some_0;
        lemma_nth(
            channels,
            curves[j].channel,
            crate::nucc::nucc_anm::flatten::spec_seen_before(curves, j, curves[j].channel),
            0,
        );
        lemma_curve_round_trip(curves[j], index as u16);
    } else {
        lemma_chunk_curves_element(channels, curves, upto - 1, j);
    }
}

/// The curves of an entry are decoded again, from the `k`-th on, as they
/// were written, settled.
pub proof fn lemma_curves_of_chunk_curves(channels: Seq<Channel>, curves: Seq<CurveView>, k: int)
    requires
        0 <= k <= curves.len(),
        channels.len() <= u16::MAX,
        spec_chunk_curves(channels, curves, curves.len() as int) is Ok,
    ensures
        spec_curves_of(
            channels,
            spec_chunk_curves(channels, curves, curves.len() as int)->Ok_0.0,
            spec_chunk_curves(channels, curves, curves.len() as int)->Ok_0.1,
            k,
        ) == Ok::<Seq<CurveView>, NuccError>(
            spec_settled_curves(curves).subrange(k, curves.len() as int),
        ),
    decreases curves.len() - k,
{
    let n = curves.len() as int;
    let headers = spec_chunk_curves(channels, curves, n)->Ok_0.0;
    let runs = spec_chunk_curves(channels, curves, n)->Ok_0.1;
    lemma_chunk_curves_sized(channels, curves, n);
    let settled = spec_settled_curves(curves);
    if k == n {
        assert(settled.subrange(k, n) =~= Seq::<CurveView>::empty());
    } else {
        lemma_chunk_curves_element(channels, curves, n, k);
        lemma_curves_of_chunk_curves(channels, curves, k + 1);
        assert(seq![settled[k]] + settled.subrange(k + 1, n) =~= settled.subrange(k, n));
    }
}

/// An entry is rebuilt from what it is written as, without an identity,
/// without children, and with its curves settled.
pub proof fn lemma_entry_of_chunk_entry(entry: EntryView, place: ClumpCoordIndex)
    requires
        spec_chunk_entry(entry, place) is Ok,
    ensures
        spec_entry_of(spec_chunk_entry(entry, place)->Ok_0) == Ok::<EntryView, NuccError>(
            spec_settled_entry(entry),
        ),
{
    let channels = spec_channels(entry.entry_format);
    assert(channels.len() <= 18);
    lemma_curves_of_chunk_curves(channels, entry.curves, 0);
    let settled = spec_settled_curves(entry.curves);
    assert(settled.subrange(0, entry.curves.len() as int) =~= settled);
}

/// A tree with the curves of every node settled.
pub open spec fn spec_settled_tree(tree: EntryView) -> EntryView
    decreases tree,
{
    EntryView {
        entry_info: tree.entry_info,
        entry_format: tree.entry_format,
        curves: spec_settled_curves(tree.curves),
        children: spec_settled_forest(tree.children),
    }
}

/// A forest with the curves of every node settled.
pub open spec fn spec_settled_forest(forest: Seq<EntryView>) -> Seq<EntryView>
    decreases forest,
{
    if forest.len() == 0 {
        seq![]
    } else {
        spec_settled_forest(forest.drop_last()).push(spec_settled_tree(forest.last()))
    }
}

/// Whether a node is found again in what was read: its children are the
/// roots of the trees below it, the entry at its place has its format and
/// its curves, settled, and its slot holds its reference.
pub open spec fn spec_node_ok(
    flat: Seq<EntryView>,
    coords: Seq<ClumpCoordIndex>,
    edges: Seq<ParentChildIndex>,
    read_names: Seq<StructReferenceView>,
    names: Seq<StructReferenceView>,
    clump: i16,
    node: EntryView,
) -> bool {
    let place = spec_place_of(node, names, clump);
    let base = flat[spec_find(coords, place)];
    &&& spec_kids(edges, place) == spec_root_places(node.children, names, clump)
    &&& base.entry_format == node.entry_format
    &&& base.curves == spec_settled_curves(node.curves)
    &&& node.entry_info == spec_entry_name(read_names, place)
}

/// Whether each of `nodes` is found again in what was read.
pub open spec fn spec_nodes_ok(
    flat: Seq<EntryView>,
    coords: Seq<ClumpCoordIndex>,
    edges: Seq<ParentChildIndex>,
    read_names: Seq<StructReferenceView>,
    names: Seq<StructReferenceView>,
    clump: i16,
    nodes: Seq<EntryView>,
) -> bool {
    forall|i: int|
        0 <= i < nodes.len() ==> spec_node_ok(
            flat,
            coords,
            edges,
            read_names,
            names,
            clump,
            #[trigger] nodes[i],
        )
}

/// A tree of which every node is found again in what was read is rebuilt
/// from its root, its curves settled.
pub proof fn lemma_rebuilt_tree(
    flat: Seq<EntryView>,
    coords: Seq<ClumpCoordIndex>,
    edges: Seq<ParentChildIndex>,
    read_names: Seq<StructReferenceView>,
    names: Seq<StructReferenceView>,
    clump: i16,
    tree: EntryView,
    fuel: nat,
)
    requires
        spec_nodes_ok(flat, coords, edges, read_names, names, clump, spec_tree_nodes(tree)),
        fuel >= spec_tree_nodes(tree).len(),
    ensures
        spec_tree(flat, coords, edges, read_names, spec_place_of(tree, names, clump), fuel) == Ok::<
            EntryView,
            NuccError,
        >(spec_settled_tree(tree)),
    decreases tree,
{
    let nodes = spec_tree_nodes(tree);
    let below = spec_forest_nodes(tree.children);
    assert(nodes == seq![tree] + below);
    assert(nodes[0] == tree);
    assert(spec_node_ok(flat, coords, edges, read_names, names, clump, nodes[0]));
    assert forall|i: int| 0 <= i < below.len() implies spec_node_ok(
        flat,
        coords,
        edges,
        read_names,
        names,
        clump,
        #[trigger] below[i],
    ) by {
        assert(below[i] == nodes[i + 1]);
    }
    lemma_rebuilt_forest(
        flat,
        coords,
        edges,
        read_names,
        names,
        clump,
        tree.children,
        (fuel - 1) as nat,
    );
}

/// A forest of which every node is found again in what was read is
/// rebuilt from its roots, its curves settled.
pub proof fn lemma_rebuilt_forest(
    flat: Seq<EntryView>,
    coords: Seq<ClumpCoordIndex>,
    edges: Seq<ParentChildIndex>,
    read_names: Seq<StructReferenceView>,
    names: Seq<StructReferenceView>,
    clump: i16,
    forest: Seq<EntryView>,
    fuel: nat,
)
    requires
        spec_nodes_ok(flat, coords, edges, read_names, names, clump, spec_forest_nodes(forest)),
        fuel >= spec_forest_nodes(forest).len(),
    ensures
        spec_forest(
            flat,
            coords,
            edges,
            read_names,
            spec_root_places(forest, names, clump),
            fuel,
        ) == Ok::<Seq<EntryView>, NuccError>(spec_settled_forest(forest)),
    decreases forest,
{
    let places = spec_root_places(forest, names, clump);
    if forest.len() > 0 {
        let rest = forest.drop_last();
        let last = forest.last();
        let nodes = spec_forest_nodes(forest);
        let n1 = spec_forest_nodes(rest);
        let n2 = spec_tree_nodes(last);
        assert(nodes == n1 + n2);
        assert forall|i: int| 0 <= i < n1.len() implies spec_node_ok(
            flat,
            coords,
            edges,
            read_names,
            names,
            clump,
            #[trigger] n1[i],
        ) by {
            assert(n1[i] == nodes[i]);
        }
        assert forall|i: int| 0 <= i < n2.len() implies spec_node_ok(
            flat,
            coords,
            edges,
            read_names,
            names,
            clump,
            #[trigger] n2[i],
        ) by {
            assert(n2[i] == nodes[n1.len() + i]);
        }
        lemma_rebuilt_forest(flat, coords, edges, read_names, names, clump, rest, fuel);
        lemma_rebuilt_tree(flat, coords, edges, read_names, names, clump, last, fuel);
        assert(places.drop_last() =~= spec_root_places(rest, names, clump));
        assert(places.last() == spec_place_of(last, names, clump));
    }
}

} // verus!
