//! What holds of the trees that are built from entries and edges.

use vstd::prelude::*;

use crate::error::NuccError;
use crate::nucc::nucc_anm::entry::lemma_preorder_prefix;
use crate::nucc::nucc_anm::entry::spec_preorder;
use crate::nucc::nucc_anm::entry::EntryView;
use crate::nucc::nucc_anm::graph::lemma_kids_are_children;
use crate::nucc::nucc_anm::graph::spec_find;
use crate::nucc::nucc_anm::graph::spec_forest;
use crate::nucc::nucc_anm::graph::spec_tree;
use crate::nucc::StructReferenceView;
use crate::nucc::nucc_anm::graph::lemma_parent_unique;
use crate::nucc::nucc_anm::graph::spec_climbs;
use crate::nucc::nucc_anm::graph::spec_distinct;
use crate::nucc::nucc_anm::graph::spec_entry_name;
use crate::nucc::nucc_anm::graph::spec_edge_ok;
use crate::nucc::nucc_anm::graph::spec_has;
use crate::nucc::nucc_anm::graph::spec_well_formed;
use crate::nucc::nucc_anm::graph::spec_is_child;
use crate::nucc::nucc_anm::graph::spec_kids;
use crate::nucc::nucc_anm::graph::spec_parent;
use crate::nucc::nucc_anm::graph::spec_roots;
use crate::nucc::nucc_anm::graph::spec_single_parent;
use crate::nucc_chunk::nucc_chunk_anm::clump::ClumpCoordIndex;
use crate::nucc_chunk::nucc_chunk_anm::clump::ParentChildIndex;

verus! {

/// Whether `top` is reached from `place` by going from child to parent
/// `steps` times.
pub open spec fn spec_above(
    edges: Seq<ParentChildIndex>,
    place: ClumpCoordIndex,
    steps: nat,
    top: ClumpCoordIndex,
) -> bool
    decreases steps,
{
    if steps == 0 {
        place == top
    } else {
        spec_is_child(edges, place) && spec_above(
            edges,
            spec_parent(edges, place),
            (steps - 1) as nat,
            top,
        )
    }
}

/// Going up a number of steps leads to one place only.
pub proof fn lemma_above_unique(
    edges: Seq<ParentChildIndex>,
    place: ClumpCoordIndex,
    steps: nat,
    a: ClumpCoordIndex,
    b: ClumpCoordIndex,
)
    requires
        spec_above(edges, place, steps, a),
        spec_above(edges, place, steps, b),
    ensures
        a == b,
    decreases steps,
{
    if steps > 0 {
        lemma_above_unique(edges, spec_parent(edges, place), (steps - 1) as nat, a, b);
    }
}

/// Going up `first` steps and then `then` steps is going up their sum.
pub proof fn lemma_above_join(
    edges: Seq<ParentChildIndex>,
    place: ClumpCoordIndex,
    first: nat,
    middle: ClumpCoordIndex,
    then: nat,
    top: ClumpCoordIndex,
)
    requires
        spec_above(edges, place, first, middle),
        spec_above(edges, middle, then, top),
    ensures
        spec_above(edges, place, first + then, top),
    decreases first,
{
    if first > 0 {
        lemma_above_join(
            edges,
            spec_parent(edges, place),
            (first - 1) as nat,
            middle,
            then,
            top,
        );
    }
}

/// Where going up `first + then` steps leads to `top` and going up `first`
/// steps to `middle`, going up `then` steps from `middle` leads to `top`.
pub proof fn lemma_above_split(
    edges: Seq<ParentChildIndex>,
    place: ClumpCoordIndex,
    first: nat,
    middle: ClumpCoordIndex,
    then: nat,
    top: ClumpCoordIndex,
)
    requires
        spec_above(edges, place, first, middle),
        spec_above(edges, place, first + then, top),
    ensures
        spec_above(edges, middle, then, top),
    decreases first,
{
    if first > 0 {
        lemma_above_split(
            edges,
            spec_parent(edges, place),
            (first - 1) as nat,
            middle,
            then,
            top,
        );
    }
}

/// From a place that lies above itself no root is reached.
pub proof fn lemma_no_climb_on_cycle(
    edges: Seq<ParentChildIndex>,
    place: ClumpCoordIndex,
    around: nat,
    at: ClumpCoordIndex,
    steps: nat,
    fuel: nat,
)
    requires
        around >= 1,
        spec_above(edges, place, around, place),
        spec_above(edges, place, steps, at),
    ensures
        !spec_climbs(edges, at, fuel),
    decreases fuel,
{
    // `at` lies on the way round, so it has a parent, which lies on the
    // way round too.
    lemma_cycle_goes_on(edges, place, around, at, steps);
    if fuel > 0 {
        lemma_above_step(edges, place, steps, at);
        lemma_no_climb_on_cycle(
            edges,
            place,
            around,
            spec_parent(edges, at),
            steps + 1,
            (fuel - 1) as nat,
        );
    }
}

/// A place that is reached going up from a place that lies above itself
/// has a parent.
proof fn lemma_cycle_goes_on(
    edges: Seq<ParentChildIndex>,
    place: ClumpCoordIndex,
    around: nat,
    at: ClumpCoordIndex,
    steps: nat,
)
    requires
        around >= 1,
        spec_above(edges, place, around, place),
        spec_above(edges, place, steps, at),
    ensures
        spec_is_child(edges, at),
    decreases steps,
{
    if steps == 0 {
    } else if steps < around {
        // Going on from `at` the rest of the way round leads to `place`.
        lemma_above_split(edges, place, steps, at, (around - steps) as nat, place);
    } else {
        // One way round leads to `place`; the rest of the steps start there.
        lemma_above_split(edges, place, around, place, (steps - around) as nat, at);
        lemma_cycle_goes_on(edges, place, around, at, (steps - around) as nat);
    }
}

/// One more step up from the place reached after `steps` steps is the
/// place reached after `steps + 1` steps.
pub proof fn lemma_above_step(
    edges: Seq<ParentChildIndex>,
    place: ClumpCoordIndex,
    steps: nat,
    at: ClumpCoordIndex,
)
    requires
        spec_above(edges, place, steps, at),
        spec_is_child(edges, at),
    ensures
        spec_above(edges, place, steps + 1, spec_parent(edges, at)),
{
    assert(spec_above(edges, at, 1, spec_parent(edges, at))) by {
        assert(spec_above(edges, spec_parent(edges, at), 0, spec_parent(edges, at)));
    }
    lemma_above_join(edges, place, steps, at, 1, spec_parent(edges, at));
}

/// The child of every edge whose parent is `place` stands among the
/// children of `place`.
pub proof fn lemma_edge_in_kids(edges: Seq<ParentChildIndex>, place: ClumpCoordIndex, a: int)
    requires
        0 <= a < edges.len(),
        edges[a].0 == place,
    ensures
        exists|i: int|
            0 <= i < spec_kids(edges, place).len() && spec_kids(edges, place)[i] == edges[a].1,
    decreases edges.len(),
{
    let front = edges.drop_last();
    let kids = spec_kids(edges, place);
    if a == edges.len() - 1 {
        assert(kids[kids.len() - 1] == edges[a].1);
    } else {
        assert(front[a] == edges[a]);
        lemma_edge_in_kids(front, place, a);
        let i = choose|i: int|
            0 <= i < spec_kids(front, place).len() && spec_kids(front, place)[i] == front[a].1;
        assert(kids[i] == edges[a].1);
    }
}

/// Where no place has two parents, no place stands twice among the
/// children of a place.
pub proof fn lemma_kids_distinct(edges: Seq<ParentChildIndex>, place: ClumpCoordIndex)
    requires
        spec_single_parent(edges),
    ensures
        forall|i: int, j: int|
            0 <= i < j < spec_kids(edges, place).len() ==> spec_kids(edges, place)[i]
                != spec_kids(edges, place)[j],
    decreases edges.len(),
{
    if edges.len() > 0 {
        let front = edges.drop_last();
        let kids = spec_kids(edges, place);
        let before = spec_kids(front, place);
        assert(spec_single_parent(front)) by {
            assert forall|i: int, j: int| 0 <= i < j < front.len() implies front[i].1
                != front[j].1 by {
                assert(front[i] == edges[i] && front[j] == edges[j]);
            }
        }
        lemma_kids_distinct(front, place);
        assert forall|i: int, j: int| 0 <= i < j < kids.len() implies kids[i] != kids[j] by {
            if j < before.len() {
                assert(kids[i] == before[i] && kids[j] == before[j]);
            } else {
                assert(kids[i] == before[i]);
                lemma_kids_are_children(front, place, i);
                let a = choose|a: int|
                    0 <= a < front.len() && front[a].0 == place && front[a].1 == before[i];
                assert(front[a] == edges[a]);
                assert(edges[a].1 != edges[edges.len() - 1].1);
            }
        }
    }
}

/// Where no place has two parents, each child of a place has that place as
/// its parent.
pub proof fn lemma_kid_parent(edges: Seq<ParentChildIndex>, place: ClumpCoordIndex, i: int)
    requires
        spec_single_parent(edges),
        0 <= i < spec_kids(edges, place).len(),
    ensures
        spec_is_child(edges, spec_kids(edges, place)[i]),
        spec_parent(edges, spec_kids(edges, place)[i]) == place,
{
    lemma_kids_are_children(edges, place, i);
    let a = choose|a: int|
        0 <= a < edges.len() && edges[a].0 == place && edges[a].1 == spec_kids(edges, place)[i];
    lemma_parent_unique(edges, a);
}

/// The places of the tree below `place`, the root first and then the
/// places of its children's trees in the order of their edges; `None` for
/// a tree deeper than `fuel`.
pub open spec fn spec_tree_places(
    edges: Seq<ParentChildIndex>,
    place: ClumpCoordIndex,
    fuel: nat,
) -> Option<Seq<ClumpCoordIndex>>
    decreases fuel, 0nat,
{
    if fuel == 0 {
        None
    } else {
        match spec_forest_places(edges, spec_kids(edges, place), (fuel - 1) as nat) {
            None => None,
            Some(below) => Some(seq![place] + below),
        }
    }
}

/// The places of the trees below `places`, one tree after the other.
pub open spec fn spec_forest_places(
    edges: Seq<ParentChildIndex>,
    places: Seq<ClumpCoordIndex>,
    fuel: nat,
) -> Option<Seq<ClumpCoordIndex>>
    decreases fuel, places.len() + 1,
{
    if places.len() == 0 {
        Some(seq![])
    } else {
        match spec_forest_places(edges, places.drop_last(), fuel) {
            None => None,
            Some(front) => match spec_tree_places(edges, places.last(), fuel) {
                None => None,
                Some(tree) => Some(front + tree),
            },
        }
    }
}

/// Whether `top` is reached from `place` in fewer than `fuel` steps.
pub open spec fn spec_below(
    edges: Seq<ParentChildIndex>,
    place: ClumpCoordIndex,
    top: ClumpCoordIndex,
    fuel: nat,
) -> bool {
    exists|steps: nat| steps < fuel && spec_above(edges, place, steps, top)
}

/// Whether one of `tops` is reached from `place` in fewer than `fuel`
/// steps.
pub open spec fn spec_below_one(
    edges: Seq<ParentChildIndex>,
    place: ClumpCoordIndex,
    tops: Seq<ClumpCoordIndex>,
    fuel: nat,
) -> bool {
    exists|k: int| 0 <= k < tops.len() && spec_below(edges, place, tops[k], fuel)
}

/// Whether `place` stands in `list`.
pub open spec fn spec_in(list: Seq<ClumpCoordIndex>, place: ClumpCoordIndex) -> bool {
    exists|i: int| 0 <= i < list.len() && list[i] == place
}

/// Every place of a tree lies below its root.
pub proof fn lemma_tree_members(edges: Seq<ParentChildIndex>, place: ClumpCoordIndex, fuel: nat)
    requires
        spec_single_parent(edges),
        spec_tree_places(edges, place, fuel) is Some,
    ensures
        forall|i: int|
            0 <= i < spec_tree_places(edges, place, fuel)->Some_0.len() ==> spec_below(
                edges,
                #[trigger] spec_tree_places(edges, place, fuel)->Some_0[i],
                place,
                fuel,
            ),
    decreases fuel, 0nat,
{
    let list = spec_tree_places(edges, place, fuel)->Some_0;
    let kids = spec_kids(edges, place);
    let below = spec_forest_places(edges, kids, (fuel - 1) as nat)->Some_0;
    lemma_forest_members(edges, kids, (fuel - 1) as nat);
    assert forall|i: int| 0 <= i < list.len() implies spec_below(
        edges,
        #[trigger] list[i],
        place,
        fuel,
    ) by {
        if i == 0 {
            assert(spec_above(edges, list[0], 0, place));
        } else {
            let x = below[i - 1];
            assert(list[i] == x);
            assert(spec_below_one(edges, x, kids, (fuel - 1) as nat));
            let k = choose|k: int|
                0 <= k < kids.len() && spec_below(edges, x, kids[k], (fuel - 1) as nat);
            let steps = choose|steps: nat|
                steps < (fuel - 1) as nat && spec_above(edges, x, steps, kids[k]);
            lemma_kid_parent(edges, place, k);
            lemma_above_step(edges, x, steps, kids[k]);
            assert(spec_above(edges, x, steps + 1, place));
        }
    }
}

/// Every place of a forest lies below one of its roots.
pub proof fn lemma_forest_members(
    edges: Seq<ParentChildIndex>,
    places: Seq<ClumpCoordIndex>,
    fuel: nat,
)
    requires
        spec_single_parent(edges),
        spec_forest_places(edges, places, fuel) is Some,
    ensures
        forall|i: int|
            0 <= i < spec_forest_places(edges, places, fuel)->Some_0.len() ==> spec_below_one(
                edges,
                #[trigger] spec_forest_places(edges, places, fuel)->Some_0[i],
                places,
                fuel,
            ),
    decreases fuel, places.len() + 1,
{
    if places.len() > 0 {
        let list = spec_forest_places(edges, places, fuel)->Some_0;
        let front = spec_forest_places(edges, places.drop_last(), fuel)->Some_0;
        let tree = spec_tree_places(edges, places.last(), fuel)->Some_0;
        lemma_forest_members(edges, places.drop_last(), fuel);
        lemma_tree_members(edges, places.last(), fuel);
        assert forall|i: int| 0 <= i < list.len() implies spec_below_one(
            edges,
            #[trigger] list[i],
            places,
            fuel,
        ) by {
            if i < front.len() {
                assert(list[i] == front[i]);
                assert(spec_below_one(edges, front[i], places.drop_last(), fuel));
                let k = choose|k: int|
                    0 <= k < places.drop_last().len() && spec_below(
                        edges,
                        front[i],
                        places.drop_last()[k],
                        fuel,
                    );
                assert(places[k] == places.drop_last()[k]);
                assert(spec_below(edges, list[i], places[k], fuel));
            } else {
                assert(list[i] == tree[i - front.len()]);
                assert(spec_below(edges, tree[i - front.len()], places.last(), fuel));
                assert(spec_below(edges, list[i], places[places.len() - 1], fuel));
            }
        }
    }
}

/// Whether no place lies above itself.
pub open spec fn spec_acyclic(edges: Seq<ParentChildIndex>) -> bool {
    forall|place: ClumpCoordIndex, steps: nat|
        steps >= 1 ==> !#[trigger] spec_above(edges, place, steps, place)
}

/// In a forest no place lies above itself.
pub proof fn lemma_acyclic(
    coords: Seq<ClumpCoordIndex>,
    edges: Seq<ParentChildIndex>,
    slots: Seq<int>,
    others: int,
)
    requires
        spec_well_formed(coords, edges, slots, others),
    ensures
        spec_acyclic(edges),
{
    assert forall|place: ClumpCoordIndex, steps: nat| steps >= 1 implies !#[trigger] spec_above(
        edges,
        place,
        steps,
        place,
    ) by {
        if spec_above(edges, place, steps, place) {
            assert(spec_is_child(edges, place));
            let a = choose|a: int| 0 <= a < edges.len() && edges[a].1 == place;
            assert(spec_edge_ok(coords, edges[a]));
            assert(spec_has(coords, place));
            let k = choose|k: int| 0 <= k < coords.len() && coords[k] == place;
            assert(spec_climbs(edges, coords[k], coords.len()));
            assert(spec_above(edges, place, 0, place));
            lemma_no_climb_on_cycle(edges, place, steps, place, 0, coords.len());
        }
    }
}

/// Whether none of `places` lies above another or is the same as another.
pub open spec fn spec_antichain(edges: Seq<ParentChildIndex>, places: Seq<ClumpCoordIndex>) -> bool {
    forall|i: int, j: int, steps: nat|
        0 <= i < places.len() && 0 <= j < places.len() && i != j ==> !#[trigger] spec_above(
            edges,
            places[i],
            steps,
            places[j],
        )
}

/// None of the children of a place lies above another.
pub proof fn lemma_kids_antichain(edges: Seq<ParentChildIndex>, place: ClumpCoordIndex)
    requires
        spec_single_parent(edges),
        spec_acyclic(edges),
    ensures
        spec_antichain(edges, spec_kids(edges, place)),
{
    let kids = spec_kids(edges, place);
    lemma_kids_distinct(edges, place);
    assert forall|i: int, j: int, steps: nat|
        0 <= i < kids.len() && 0 <= j < kids.len() && i != j implies !#[trigger] spec_above(
        edges,
        kids[i],
        steps,
        kids[j],
    ) by {
        if spec_above(edges, kids[i], steps, kids[j]) {
            lemma_kid_parent(edges, place, i);
            lemma_kid_parent(edges, place, j);
            if steps == 0 {
                assert(kids[i] == kids[j]);
                if i < j {
                    assert(kids[i] != kids[j]);
                } else {
                    assert(kids[j] != kids[i]);
                }
            } else {
                assert(spec_above(edges, place, (steps - 1) as nat, kids[j]));
                lemma_above_step(edges, place, (steps - 1) as nat, kids[j]);
                assert(spec_above(edges, place, steps, place));
            }
        }
    }
}

/// No place stands twice in a tree.
pub proof fn lemma_tree_distinct(edges: Seq<ParentChildIndex>, place: ClumpCoordIndex, fuel: nat)
    requires
        spec_single_parent(edges),
        spec_acyclic(edges),
        spec_tree_places(edges, place, fuel) is Some,
    ensures
        spec_distinct(spec_tree_places(edges, place, fuel)->Some_0),
    decreases fuel, 0nat,
{
    let list = spec_tree_places(edges, place, fuel)->Some_0;
    let kids = spec_kids(edges, place);
    let below = spec_forest_places(edges, kids, (fuel - 1) as nat)->Some_0;
    lemma_kids_antichain(edges, place);
    lemma_forest_distinct(edges, kids, (fuel - 1) as nat);
    lemma_forest_members(edges, kids, (fuel - 1) as nat);
    assert forall|i: int, j: int| 0 <= i < j < list.len() implies list[i] != list[j] by {
        if i == 0 {
            let x = below[j - 1];
            assert(list[j] == x);
            if x == place {
                assert(spec_below_one(edges, x, kids, (fuel - 1) as nat));
                let k = choose|k: int|
                    0 <= k < kids.len() && spec_below(edges, x, kids[k], (fuel - 1) as nat);
                let steps = choose|steps: nat|
                    steps < (fuel - 1) as nat && spec_above(edges, x, steps, kids[k]);
                lemma_kid_parent(edges, place, k);
                lemma_above_step(edges, x, steps, kids[k]);
                assert(spec_above(edges, place, steps + 1, place));
            }
        } else {
            assert(list[i] == below[i - 1] && list[j] == below[j - 1]);
        }
    }
}

/// No place stands twice in a forest whose roots do not lie above one
/// another.
pub proof fn lemma_forest_distinct(
    edges: Seq<ParentChildIndex>,
    places: Seq<ClumpCoordIndex>,
    fuel: nat,
)
    requires
        spec_single_parent(edges),
        spec_acyclic(edges),
        spec_antichain(edges, places),
        spec_forest_places(edges, places, fuel) is Some,
    ensures
        spec_distinct(spec_forest_places(edges, places, fuel)->Some_0),
    decreases fuel, places.len() + 1,
{
    if places.len() > 0 {
        let list = spec_forest_places(edges, places, fuel)->Some_0;
        let rest = places.drop_last();
        let last = places.last();
        let front = spec_forest_places(edges, rest, fuel)->Some_0;
        let tree = spec_tree_places(edges, last, fuel)->Some_0;
        assert(spec_antichain(edges, rest)) by {
            assert forall|i: int, j: int, steps: nat|
                0 <= i < rest.len() && 0 <= j < rest.len() && i != j implies !#[trigger] spec_above(
                edges,
                rest[i],
                steps,
                rest[j],
            ) by {
                assert(rest[i] == places[i] && rest[j] == places[j]);
            }
        }
        lemma_forest_distinct(edges, rest, fuel);
        lemma_tree_distinct(edges, last, fuel);
        lemma_forest_members(edges, rest, fuel);
        lemma_tree_members(edges, last, fuel);
        assert forall|i: int, j: int| 0 <= i < j < list.len() implies list[i] != list[j] by {
            if j < front.len() {
                assert(list[i] == front[i] && list[j] == front[j]);
            } else if i >= front.len() {
                assert(list[i] == tree[i - front.len()] && list[j] == tree[j - front.len()]);
            } else {
                let x = front[i];
                let y = tree[j - front.len()];
                assert(list[i] == x && list[j] == y);
                if x == y {
                    assert(spec_below_one(edges, x, rest, fuel));
                    let k = choose|k: int|
                        0 <= k < rest.len() && spec_below(edges, x, rest[k], fuel);
                    let d1 = choose|d1: nat| d1 < fuel && spec_above(edges, x, d1, rest[k]);
                    assert(spec_below(edges, y, last, fuel));
                    let d2 = choose|d2: nat| d2 < fuel && spec_above(edges, x, d2, last);
                    assert(rest[k] == places[k]);
                    assert(last == places[places.len() - 1]);
                    if d1 <= d2 {
                        lemma_above_split(edges, x, d1, rest[k], (d2 - d1) as nat, last);
                        assert(spec_above(
                            edges,
                            places[k],
                            (d2 - d1) as nat,
                            places[places.len() - 1],
                        ));
                    } else {
                        lemma_above_split(edges, x, d2, last, (d1 - d2) as nat, rest[k]);
                        assert(spec_above(
                            edges,
                            places[places.len() - 1],
                            (d1 - d2) as nat,
                            places[k],
                        ));
                    }
                }
            }
        }
    }
}

/// The last place before `top` on the way up from `place`: it is reached
/// in one step less, and `top` is its parent.
pub proof fn lemma_above_last(
    edges: Seq<ParentChildIndex>,
    place: ClumpCoordIndex,
    steps: nat,
    top: ClumpCoordIndex,
) -> (kid: ClumpCoordIndex)
    requires
        steps >= 1,
        spec_above(edges, place, steps, top),
    ensures
        spec_above(edges, place, (steps - 1) as nat, kid),
        spec_is_child(edges, kid),
        spec_parent(edges, kid) == top,
    decreases steps,
{
    if steps == 1 {
        assert(spec_above(edges, spec_parent(edges, place), 0, top));
        assert(spec_above(edges, place, 0, place));
        place
    } else {
        let kid = lemma_above_last(edges, spec_parent(edges, place), (steps - 1) as nat, top);
        kid
    }
}

/// A forest holds the tree below each of its roots.
pub proof fn lemma_forest_holds_tree(
    edges: Seq<ParentChildIndex>,
    places: Seq<ClumpCoordIndex>,
    fuel: nat,
    j: int,
)
    requires
        0 <= j < places.len(),
        spec_forest_places(edges, places, fuel) is Some,
    ensures
        spec_tree_places(edges, places[j], fuel) is Some,
        forall|i: int|
            0 <= i < spec_tree_places(edges, places[j], fuel)->Some_0.len() ==> spec_in(
                spec_forest_places(edges, places, fuel)->Some_0,
                #[trigger] spec_tree_places(edges, places[j], fuel)->Some_0[i],
            ),
    decreases places.len(),
{
    let list = spec_forest_places(edges, places, fuel)->Some_0;
    let front = spec_forest_places(edges, places.drop_last(), fuel)->Some_0;
    let last = spec_tree_places(edges, places.last(), fuel)->Some_0;
    if j == places.len() - 1 {
        assert forall|i: int| 0 <= i < last.len() implies spec_in(list, #[trigger] last[i]) by {
            assert(list[front.len() + i] == last[i]);
        }
    } else {
        assert(places.drop_last()[j] == places[j]);
        lemma_forest_holds_tree(edges, places.drop_last(), fuel, j);
        let tree = spec_tree_places(edges, places[j], fuel)->Some_0;
        assert forall|i: int| 0 <= i < tree.len() implies spec_in(list, #[trigger] tree[i]) by {
            assert(spec_in(front, tree[i]));
            let at = choose|at: int| 0 <= at < front.len() && front[at] == tree[i];
            assert(list[at] == tree[i]);
        }
    }
}

/// A tree holds every place that lies below its root.
pub proof fn lemma_tree_covers(
    edges: Seq<ParentChildIndex>,
    place: ClumpCoordIndex,
    fuel: nat,
    at: ClumpCoordIndex,
    steps: nat,
)
    requires
        spec_tree_places(edges, place, fuel) is Some,
        spec_above(edges, at, steps, place),
    ensures
        spec_in(spec_tree_places(edges, place, fuel)->Some_0, at),
    decreases steps,
{
    let list = spec_tree_places(edges, place, fuel)->Some_0;
    let kids = spec_kids(edges, place);
    let below = spec_forest_places(edges, kids, (fuel - 1) as nat)->Some_0;
    if steps == 0 {
        assert(list[0] == at);
    } else {
        let kid = lemma_above_last(edges, at, steps, place);
        let a = choose|a: int| 0 <= a < edges.len() && edges[a].1 == kid;
        assert(edges[a].0 == place);
        lemma_edge_in_kids(edges, place, a);
        let i = choose|i: int| 0 <= i < kids.len() && kids[i] == edges[a].1;
        lemma_forest_holds_tree(edges, kids, (fuel - 1) as nat, i);
        lemma_tree_covers(edges, kid, (fuel - 1) as nat, at, (steps - 1) as nat);
        let tree = spec_tree_places(edges, kid, (fuel - 1) as nat)->Some_0;
        let t = choose|t: int| 0 <= t < tree.len() && tree[t] == at;
        assert(spec_in(below, tree[t]));
        let b = choose|b: int| 0 <= b < below.len() && below[b] == at;
        assert(list[b + 1] == at);
    }
}

/// From a place from which a root is reached, a place without a parent
/// lies some steps up.
pub proof fn lemma_root_of(edges: Seq<ParentChildIndex>, place: ClumpCoordIndex, fuel: nat) -> (r: (
    ClumpCoordIndex,
    nat,
))
    requires
        spec_climbs(edges, place, fuel),
    ensures
        spec_above(edges, place, r.1, r.0),
        !spec_is_child(edges, r.0),
    decreases fuel,
{
    if !spec_is_child(edges, place) {
        assert(spec_above(edges, place, 0, place));
        (place, 0)
    } else {
        let up = lemma_root_of(edges, spec_parent(edges, place), (fuel - 1) as nat);
        (up.0, up.1 + 1)
    }
}

/// Going up stays within a clump and, but for the start, among the
/// entries.
pub proof fn lemma_above_stays(
    coords: Seq<ClumpCoordIndex>,
    edges: Seq<ParentChildIndex>,
    place: ClumpCoordIndex,
    steps: nat,
    top: ClumpCoordIndex,
)
    requires
        forall|i: int| 0 <= i < edges.len() ==> spec_edge_ok(coords, #[trigger] edges[i]),
        spec_above(edges, place, steps, top),
    ensures
        place.0 == top.0,
        steps >= 1 ==> spec_has(coords, place) && spec_has(coords, top),
    decreases steps,
{
    if steps >= 1 {
        let a = choose|a: int| 0 <= a < edges.len() && edges[a].1 == place;
        assert(spec_edge_ok(coords, edges[a]));
        lemma_above_stays(coords, edges, spec_parent(edges, place), (steps - 1) as nat, top);
    }
}

/// The roots of a clump are its entries without a parent.
pub proof fn lemma_roots(coords: Seq<ClumpCoordIndex>, edges: Seq<ParentChildIndex>, clump: int)
    ensures
        forall|i: int|
            0 <= i < spec_roots(coords, edges, clump).len() ==> {
                let root = #[trigger] spec_roots(coords, edges, clump)[i];
                &&& spec_has(coords, root)
                &&& root.0 == clump
                &&& !spec_is_child(edges, root)
            },
        forall|k: int|
            0 <= k < coords.len() && (#[trigger] coords[k]).0 == clump && !spec_is_child(
                edges,
                coords[k],
            ) ==> spec_in(spec_roots(coords, edges, clump), coords[k]),
        spec_distinct(coords) ==> spec_distinct(spec_roots(coords, edges, clump)),
    decreases coords.len(),
{
    if coords.len() > 0 {
        let front = coords.drop_last();
        let last = coords.last();
        let roots = spec_roots(coords, edges, clump);
        let before = spec_roots(front, edges, clump);
        lemma_roots(front, edges, clump);
        assert forall|i: int| 0 <= i < roots.len() implies {
            let root = #[trigger] roots[i];
            &&& spec_has(coords, root)
            &&& root.0 == clump
            &&& !spec_is_child(edges, root)
        } by {
            if i < before.len() {
                assert(roots[i] == before[i]);
                let k = choose|k: int| 0 <= k < front.len() && front[k] == before[i];
                assert(coords[k] == before[i]);
            } else {
                assert(coords[coords.len() - 1] == roots[i]);
            }
        }
        assert forall|k: int|
            0 <= k < coords.len() && (#[trigger] coords[k]).0 == clump && !spec_is_child(
                edges,
                coords[k],
            ) implies spec_in(roots, coords[k]) by {
            if k < front.len() {
                assert(front[k] == coords[k]);
                assert(spec_in(before, front[k]));
                let i = choose|i: int| 0 <= i < before.len() && before[i] == front[k];
                assert(roots[i] == coords[k]);
            } else {
                assert(roots[roots.len() - 1] == coords[k]);
            }
        }
        if spec_distinct(coords) {
            assert(spec_distinct(front)) by {
                assert forall|i: int, j: int| 0 <= i < j < front.len() implies front[i]
                    != front[j] by {
                    assert(front[i] == coords[i] && front[j] == coords[j]);
                }
            }
            assert forall|i: int, j: int| 0 <= i < j < roots.len() implies roots[i]
                != roots[j] by {
                if j < before.len() {
                    assert(roots[i] == before[i] && roots[j] == before[j]);
                } else {
                    assert(roots[i] == before[i]);
                    let k = choose|k: int| 0 <= k < front.len() && front[k] == before[i];
                    assert(coords[k] != coords[coords.len() - 1]);
                }
            }
        }
    }
}

/// The trees of a clump hold the entries of the clump, each once, and
/// nothing else.
pub proof fn lemma_clump_holds_its_entries(
    coords: Seq<ClumpCoordIndex>,
    edges: Seq<ParentChildIndex>,
    slots: Seq<int>,
    others: int,
    clump: int,
)
    requires
        spec_well_formed(coords, edges, slots, others),
        spec_forest_places(edges, spec_roots(coords, edges, clump), coords.len()) is Some,
    ensures
        spec_distinct(
            spec_forest_places(edges, spec_roots(coords, edges, clump), coords.len())->Some_0,
        ),
        forall|place: ClumpCoordIndex|
            #[trigger] spec_in(
                spec_forest_places(edges, spec_roots(coords, edges, clump), coords.len())->Some_0,
                place,
            ) <==> spec_has(coords, place) && place.0 == clump,
{
    let roots = spec_roots(coords, edges, clump);
    let fuel = coords.len();
    let list = spec_forest_places(edges, roots, fuel)->Some_0;
    lemma_acyclic(coords, edges, slots, others);
    lemma_roots(coords, edges, clump);
    assert(spec_antichain(edges, roots)) by {
        assert forall|i: int, j: int, steps: nat|
            0 <= i < roots.len() && 0 <= j < roots.len() && i != j implies !#[trigger] spec_above(
            edges,
            roots[i],
            steps,
            roots[j],
        ) by {
            if spec_above(edges, roots[i], steps, roots[j]) {
                if steps == 0 {
                    if i < j {
                        assert(roots[i] != roots[j]);
                    } else {
                        assert(roots[j] != roots[i]);
                    }
                } else {
                    assert(spec_is_child(edges, roots[i]));
                }
            }
        }
    }
    lemma_forest_distinct(edges, roots, fuel);
    lemma_forest_members(edges, roots, fuel);
    assert forall|place: ClumpCoordIndex| #[trigger]
        spec_in(list, place) <==> spec_has(coords, place) && place.0 == clump by {
        if spec_in(list, place) {
            let i = choose|i: int| 0 <= i < list.len() && list[i] == place;
            assert(spec_below_one(edges, list[i], roots, fuel));
            let k = choose|k: int| 0 <= k < roots.len() && spec_below(edges, place, roots[k], fuel);
            let steps = choose|steps: nat|
                steps < fuel && spec_above(edges, place, steps, roots[k]);
            lemma_above_stays(coords, edges, place, steps, roots[k]);
            if steps == 0 {
                assert(place == roots[k]);
            }
        }
        if spec_has(coords, place) && place.0 == clump {
            let k = choose|k: int| 0 <= k < coords.len() && coords[k] == place;
            assert(spec_climbs(edges, coords[k], fuel));
            let up = lemma_root_of(edges, place, fuel);
            lemma_above_stays(coords, edges, place, up.1, up.0);
            if up.1 == 0 {
                assert(up.0 == place);
            }
            assert(spec_has(coords, up.0));
            let r = choose|r: int| 0 <= r < coords.len() && coords[r] == up.0;
            assert(spec_in(roots, coords[r]));
            let j = choose|j: int| 0 <= j < roots.len() && roots[j] == up.0;
            lemma_forest_holds_tree(edges, roots, fuel, j);
            lemma_tree_covers(edges, up.0, fuel, place, up.1);
            let tree = spec_tree_places(edges, up.0, fuel)->Some_0;
            let t = choose|t: int| 0 <= t < tree.len() && tree[t] == place;
            assert(spec_in(list, tree[t]));
        }
    }
}

/// Whether `nodes` are the entries at `places`, one for one: each node has
/// the kind and the curves of the entry at its place, and is named by the
/// reference of its slot.
pub open spec fn spec_nodes_match(
    nodes: Seq<EntryView>,
    places: Seq<ClumpCoordIndex>,
    flat: Seq<EntryView>,
    coords: Seq<ClumpCoordIndex>,
    names: Seq<StructReferenceView>,
) -> bool {
    &&& nodes.len() == places.len()
    &&& forall|i: int|
        0 <= i < nodes.len() ==> {
            let node = #[trigger] nodes[i];
            let entry = flat[spec_find(coords, places[i])];
            &&& node.entry_info == spec_entry_name(names, places[i])
            &&& node.entry_format == entry.entry_format
            &&& node.curves == entry.curves
        }
}

/// The nodes of one tree in depth-first order are the root and then the
/// nodes below it.
pub proof fn lemma_preorder_one(tree: EntryView)
    ensures
        spec_preorder(seq![tree]) == seq![tree] + spec_preorder(tree.children),
{
    let one = seq![tree];
    assert(one.subrange(1, 1) =~= Seq::<EntryView>::empty());
    assert(spec_preorder(Seq::<EntryView>::empty()) =~= Seq::<EntryView>::empty());
    assert(spec_preorder(one) =~= seq![tree] + spec_preorder(tree.children));
}

/// The nodes of a forest with one more tree are those of the forest and
/// then those of the tree.
pub proof fn lemma_preorder_push(forest: Seq<EntryView>, tree: EntryView)
    ensures
        spec_preorder(forest.push(tree)) == spec_preorder(forest) + spec_preorder(seq![tree]),
{
    let all = forest.push(tree);
    lemma_preorder_prefix(all, forest.len() as int);
    lemma_preorder_one(tree);
    assert(all.subrange(0, forest.len() as int + 1) =~= all);
    assert(all.subrange(0, forest.len() as int) =~= forest);
}

/// A tree is built where its places can be listed, and its nodes in
/// depth-first order are the entries at those places.
pub proof fn lemma_tree_shape(
    flat: Seq<EntryView>,
    coords: Seq<ClumpCoordIndex>,
    edges: Seq<ParentChildIndex>,
    names: Seq<StructReferenceView>,
    place: ClumpCoordIndex,
    fuel: nat,
)
    ensures
        spec_tree(flat, coords, edges, names, place, fuel) is Ok <==> spec_tree_places(
            edges,
            place,
            fuel,
        ) is Some,
        spec_tree(flat, coords, edges, names, place, fuel) is Ok ==> spec_nodes_match(
            spec_preorder(seq![spec_tree(flat, coords, edges, names, place, fuel)->Ok_0]),
            spec_tree_places(edges, place, fuel)->Some_0,
            flat,
            coords,
            names,
        ),
    decreases fuel, 0nat,
{
    if fuel > 0 {
        let kids = spec_kids(edges, place);
        lemma_forest_shape(flat, coords, edges, names, kids, (fuel - 1) as nat);
        if spec_tree(flat, coords, edges, names, place, fuel) is Ok {
            let tree = spec_tree(flat, coords, edges, names, place, fuel)->Ok_0;
            let below = spec_forest_places(edges, kids, (fuel - 1) as nat)->Some_0;
            let nodes = spec_preorder(seq![tree]);
            let places = spec_tree_places(edges, place, fuel)->Some_0;
            lemma_preorder_one(tree);
            let under = spec_preorder(tree.children);
            assert(nodes == seq![tree] + under);
            assert(places == seq![place] + below);
            assert forall|i: int| 0 <= i < nodes.len() implies {
                let node = #[trigger] nodes[i];
                let entry = flat[spec_find(coords, places[i])];
                &&& node.entry_info == spec_entry_name(names, places[i])
                &&& node.entry_format == entry.entry_format
                &&& node.curves == entry.curves
            } by {
                if i > 0 {
                    assert(nodes[i] == under[i - 1]);
                    assert(places[i] == below[i - 1]);
                }
            }
        }
    }
}

/// A forest is built where its places can be listed, and its nodes in
/// depth-first order are the entries at those places.
pub proof fn lemma_forest_shape(
    flat: Seq<EntryView>,
    coords: Seq<ClumpCoordIndex>,
    edges: Seq<ParentChildIndex>,
    names: Seq<StructReferenceView>,
    places: Seq<ClumpCoordIndex>,
    fuel: nat,
)
    ensures
        spec_forest(flat, coords, edges, names, places, fuel) is Ok <==> spec_forest_places(
            edges,
            places,
            fuel,
        ) is Some,
        spec_forest(flat, coords, edges, names, places, fuel) is Ok ==> spec_nodes_match(
            spec_preorder(spec_forest(flat, coords, edges, names, places, fuel)->Ok_0),
            spec_forest_places(edges, places, fuel)->Some_0,
            flat,
            coords,
            names,
        ),
    decreases fuel, places.len() + 1,
{
    if places.len() == 0 {
        assert(spec_preorder(Seq::<EntryView>::empty()) =~= Seq::<EntryView>::empty());
    } else {
        lemma_forest_shape(flat, coords, edges, names, places.drop_last(), fuel);
        lemma_tree_shape(flat, coords, edges, names, places.last(), fuel);
        if spec_forest(flat, coords, edges, names, places, fuel) is Ok {
            let front = spec_forest(flat, coords, edges, names, places.drop_last(), fuel)->Ok_0;
            let tree = spec_tree(flat, coords, edges, names, places.last(), fuel)->Ok_0;
            let front_places = spec_forest_places(edges, places.drop_last(), fuel)->Some_0;
            let tree_places = spec_tree_places(edges, places.last(), fuel)->Some_0;
            lemma_preorder_push(front, tree);
            let nodes = spec_preorder(front.push(tree));
            let listed = front_places + tree_places;
            let a = spec_preorder(front);
            let b = spec_preorder(seq![tree]);
            assert(nodes == a + b);
            assert forall|i: int| 0 <= i < nodes.len() implies {
                let node = #[trigger] nodes[i];
                let entry = flat[spec_find(coords, listed[i])];
                &&& node.entry_info == spec_entry_name(names, listed[i])
                &&& node.entry_format == entry.entry_format
                &&& node.curves == entry.curves
            } by {
                if i < a.len() {
                    assert(nodes[i] == a[i]);
                    assert(listed[i] == front_places[i]);
                } else {
                    assert(nodes[i] == b[i - a.len()]);
                    assert(listed[i] == tree_places[i - a.len()]);
                }
            }
        }
    }
}

/// A forest that is built has one tree for each of its roots: the tree
/// below that root.
pub proof fn lemma_forest_trees(
    flat: Seq<EntryView>,
    coords: Seq<ClumpCoordIndex>,
    edges: Seq<ParentChildIndex>,
    names: Seq<StructReferenceView>,
    places: Seq<ClumpCoordIndex>,
    fuel: nat,
)
    requires
        spec_forest(flat, coords, edges, names, places, fuel) is Ok,
    ensures
        spec_forest(flat, coords, edges, names, places, fuel)->Ok_0.len() == places.len(),
        forall|j: int|
            0 <= j < places.len() ==> spec_tree(
                flat,
                coords,
                edges,
                names,
                #[trigger] places[j],
                fuel,
            ) == Ok::<EntryView, NuccError>(
                spec_forest(flat, coords, edges, names, places, fuel)->Ok_0[j],
            ),
    decreases places.len(),
{
    if places.len() > 0 {
        lemma_forest_trees(flat, coords, edges, names, places.drop_last(), fuel);
        assert forall|j: int| 0 <= j < places.len() implies spec_tree(
            flat,
            coords,
            edges,
            names,
            #[trigger] places[j],
            fuel,
        ) == Ok::<EntryView, NuccError>(
            spec_forest(flat, coords, edges, names, places, fuel)->Ok_0[j],
        ) by {
            if j < places.len() - 1 {
                assert(places.drop_last()[j] == places[j]);
            }
        }
    }
}

/// Every edge is realized in the tree below its parent: the tree below its
/// child stands among the children of the root.
pub proof fn lemma_edge_realized(
    flat: Seq<EntryView>,
    coords: Seq<ClumpCoordIndex>,
    edges: Seq<ParentChildIndex>,
    names: Seq<StructReferenceView>,
    a: int,
    fuel: nat,
)
    requires
        0 <= a < edges.len(),
        spec_tree(flat, coords, edges, names, edges[a].0, fuel) is Ok,
    ensures
        fuel >= 1,
        exists|j: int|
            0 <= j < spec_tree(flat, coords, edges, names, edges[a].0, fuel)->Ok_0.children.len()
                && spec_tree(flat, coords, edges, names, edges[a].1, (fuel - 1) as nat) == Ok::<
                EntryView,
                NuccError,
            >(#[trigger] spec_tree(flat, coords, edges, names, edges[a].0, fuel)->Ok_0.children[j]),
{
    let kids = spec_kids(edges, edges[a].0);
    lemma_edge_in_kids(edges, edges[a].0, a);
    let j = choose|j: int| 0 <= j < kids.len() && kids[j] == edges[a].1;
    lemma_forest_trees(flat, coords, edges, names, kids, (fuel - 1) as nat);
    let tree = spec_tree(flat, coords, edges, names, edges[a].0, fuel)->Ok_0;
    assert(spec_tree(flat, coords, edges, names, kids[j], (fuel - 1) as nat) == Ok::<
        EntryView,
        NuccError,
    >(tree.children[j]));
}

} // verus!
