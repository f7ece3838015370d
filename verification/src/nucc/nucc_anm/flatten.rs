//! From entry trees back to the flat entries and edges of the file.

use vstd::prelude::*;

use crate::error::NuccError;
use crate::nucc::nucc_anm::curve::lemma_written_curve_len;
use crate::nucc::nucc_anm::curve::spec_curve_chunk;
use crate::nucc::nucc_anm::curve::Channel;
use crate::nucc::nucc_anm::curve::Curve;
use crate::nucc::nucc_anm::curve::CurveView;
use crate::nucc::nucc_anm::entry::lemma_children_view;
use crate::nucc::nucc_anm::entry::spec_channels;
use crate::nucc::nucc_anm::entry::spec_chunk_format;
use crate::nucc::nucc_anm::entry::Entry;
use crate::nucc::nucc_anm::entry::EntryInfo;
use crate::nucc::nucc_anm::entry::EntryInfoView;
use crate::nucc::nucc_anm::entry::EntryView;
use crate::nucc::views;
use crate::nucc::NuccStructReference;
use crate::nucc::StructReferenceView;
use crate::nucc_chunk::nucc_chunk_anm::clump::ClumpCoordIndex;
use crate::nucc_chunk::nucc_chunk_anm::clump::ParentChildIndex;
use crate::nucc_chunk::nucc_chunk_anm::curve::Curve as ChunkCurve;
use crate::nucc_chunk::nucc_chunk_anm::curve::CurveHeader;
use crate::nucc_chunk::nucc_chunk_anm::entry::spec_entry_sized;
use crate::nucc_chunk::nucc_chunk_anm::entry::Entry as ChunkEntry;
use crate::nucc_chunk::nucc_chunk_anm::entry::EntryView as ChunkEntryView;
use crate::table::spec_position;

verus! {

/// How many of the first `upto` curves are on `channel`.
pub open spec fn spec_seen_before(curves: Seq<CurveView>, upto: int, channel: Channel) -> nat
    decreases upto,
{
    if upto <= 0 || upto > curves.len() {
        0
    } else if curves[upto - 1].channel == channel {
        spec_seen_before(curves, upto - 1, channel) + 1
    } else {
        spec_seen_before(curves, upto - 1, channel)
    }
}

/// The place of the `n`-th occurrence of `channel` in `channels` at or
/// after `from`, counting from zero, if there are that many.
pub open spec fn spec_nth(channels: Seq<Channel>, channel: Channel, n: nat, from: int) -> Option<
    int,
>
    decreases channels.len() - from,
{
    if from < 0 || from >= channels.len() {
        None
    } else if channels[from] == channel {
        if n == 0 {
            Some(from)
        } else {
            spec_nth(channels, channel, (n - 1) as nat, from + 1)
        }
    } else {
        spec_nth(channels, channel, n, from + 1)
    }
}

/// The curve index under which the `j`-th curve of an entry is written:
/// curves on one channel take the places of that channel in the channel
/// list of the entry, in their order.
pub open spec fn spec_curve_index(channels: Seq<Channel>, curves: Seq<CurveView>, j: int) -> Option<
    int,
> {
    spec_nth(channels, curves[j].channel, spec_seen_before(curves, j, curves[j].channel), 0)
}

/// The headers and byte runs that the first `upto` curves of an entry are
/// written as. A curve for which the channel list has no place left is an
/// `InvalidKeyframes`; the first curve that fails decides.
pub open spec fn spec_chunk_curves(channels: Seq<Channel>, curves: Seq<CurveView>, upto: int) -> Result<
    (Seq<CurveHeader>, Seq<Seq<u8>>),
    NuccError,
>
    decreases upto,
{
    if upto <= 0 || upto > curves.len() {
        Ok((seq![], seq![]))
    } else {
        match spec_chunk_curves(channels, curves, upto - 1) {
            Err(e) => Err(e),
            Ok((headers, runs)) => match spec_curve_index(channels, curves, upto - 1) {
                None => Err(NuccError::InvalidKeyframes),
                Some(index) => match spec_curve_chunk(curves[upto - 1], index as u16) {
                    Err(e) => Err(e),
                    Ok((header, run)) => Ok((headers.push(header), runs.push(run))),
                },
            },
        }
    }
}

/// The wire entry that an entry is written as at `place`.
pub open spec fn spec_chunk_entry(entry: EntryView, place: ClumpCoordIndex) -> Result<
    ChunkEntryView,
    NuccError,
> {
    match spec_chunk_curves(
        spec_channels(entry.entry_format),
        entry.curves,
        entry.curves.len() as int,
    ) {
        Err(e) => Err(e),
        Ok((curve_headers, curves)) => Ok(
            ChunkEntryView {
                coord_index: place,
                entry_format: spec_chunk_format(entry.entry_format),
                curve_headers,
                curves,
            },
        ),
    }
}

/// When the curves before the `k`-th can be written and the `k`-th cannot,
/// the run fails as the `k`-th does.
proof fn lemma_chunk_curves_err(
    channels: Seq<Channel>,
    curves: Seq<CurveView>,
    upto: int,
    k: int,
    e: NuccError,
)
    requires
        0 <= k < upto <= curves.len(),
        spec_chunk_curves(channels, curves, k) is Ok,
        spec_chunk_curves(channels, curves, k + 1) == Err::<
            (Seq<CurveHeader>, Seq<Seq<u8>>),
            NuccError,
        >(e),
    ensures
        spec_chunk_curves(channels, curves, upto) == Err::<
            (Seq<CurveHeader>, Seq<Seq<u8>>),
            NuccError,
        >(e),
    decreases upto,
{
    if k + 1 < upto {
        lemma_chunk_curves_err(channels, curves, upto - 1, k, e);
    }
}

/// How many of the first `upto` curves are on `channel`.
fn seen_before(curves: &Vec<Curve>, upto: usize, channel: Channel) -> (r: usize)
    requires
        upto <= curves.len(),
    ensures
        r == spec_seen_before(views(curves@), upto as int, channel),
        r <= upto,
{
    let mut count: usize = 0;
    let mut i: usize = 0;
    while i < upto
        invariant
            i <= upto,
            upto <= curves.len(),
            count <= i,
            count == spec_seen_before(views(curves@), i as int, channel),
        decreases upto - i,
    {
        assert(views(curves@)[i as int] == curves@[i as int]@);
        if curves[i].channel() == channel {
            count += 1;
        }
        i += 1;
    }
    count
}

/// The place of the `n`-th occurrence of `channel` in `channels`.
fn nth(channels: &Vec<Channel>, channel: Channel, n: usize) -> (r: Option<usize>)
    ensures
        r matches Some(i) ==> spec_nth(channels@, channel, n as nat, 0) == Some(i as int) && i
            < channels.len(),
        r is None ==> spec_nth(channels@, channel, n as nat, 0) is None,
{
    let mut left: usize = n;
    let mut i: usize = 0;
    while i < channels.len()
        invariant
            i <= channels.len(),
            spec_nth(channels@, channel, n as nat, 0) == spec_nth(
                channels@,
                channel,
                left as nat,
                i as int,
            ),
        decreases channels.len() - i,
    {
        if channels[i] == channel {
            if left == 0 {
                return Some(i);
            }
            left -= 1;
        }
        i += 1;
    }
    None
}

impl Entry {
    /// The wire entry that this entry is written as at `place`. Its
    /// children are not looked at.
    pub fn to_chunk(&self, place: ClumpCoordIndex) -> (r: Result<ChunkEntry, NuccError>)
        ensures
            r matches Ok(chunk) ==> spec_chunk_entry(self@, place) == Ok::<
                ChunkEntryView,
                NuccError,
            >(chunk@),
            r matches Err(e) ==> spec_chunk_entry(self@, place) == Err::<ChunkEntryView, NuccError>(
                e,
            ),
    {
        let channels = self.entry_format.iter_channels();
        let mut curve_headers: Vec<CurveHeader> = Vec::new();
        let mut curves: Vec<ChunkCurve> = Vec::new();
        let mut j: usize = 0;
        let ghost all = views(self.curves@);
        assert(views(curves@) =~= seq![]);
        while j < self.curves.len()
            invariant
                j <= self.curves.len(),
                all == views(self.curves@),
                all == self@.curves,
                channels@ == spec_channels(self.entry_format),
                self@.entry_format == self.entry_format,
                spec_chunk_curves(channels@, all, j as int) == Ok::<
                    (Seq<CurveHeader>, Seq<Seq<u8>>),
                    NuccError,
                >((curve_headers@, views(curves@))),
            decreases self.curves.len() - j,
        {
            let ghost before = views(curves@);
            let curve = &self.curves[j];
            assert(all[j as int] == curve@);
            let channel = curve.channel();
            let seen = seen_before(&self.curves, j, channel);
            let index = match nth(&channels, channel, seen) {
                Some(i) => i,
                None => {
                    proof {
                        lemma_chunk_curves_err(
                            channels@,
                            all,
                            all.len() as int,
                            j as int,
                            NuccError::InvalidKeyframes,
                        );
                    }
                    return Err(NuccError::InvalidKeyframes);
                },
            };
            assert(channels.len() <= 18);
            let (header, run) = match curve.to_chunk(index as u16) {
                Ok(v) => v,
                Err(e) => {
                    proof {
                        lemma_chunk_curves_err(channels@, all, all.len() as int, j as int, e);
                    }
                    return Err(e);
                },
            };
            curve_headers.push(header);
            curves.push(run);
            assert(views(curves@) =~= before.push(run@));
            j += 1;
        }
        Ok(
            ChunkEntry {
                coord_index: place,
                entry_format: self.entry_format.to_chunk(),
                curve_headers,
                curves,
            },
        )
    }
}

/// The slot of an entry in its clump: the first place of its reference
/// among the references of the clump's bones and materials. An entry that
/// is not named by a reference has no slot.
pub open spec fn spec_slot(names: Seq<StructReferenceView>, info: EntryInfoView) -> Option<int> {
    match info {
        EntryInfoView::StructRef(reference) => spec_position(names, reference),
        EntryInfoView::StructInfo(_) => None,
    }
}

/// The place of an entry of clump `clump`. An entry without a slot is a
/// `MalformedGraph`, a slot that does not fit in 16 bits a `CountMismatch`.
pub open spec fn spec_place(names: Seq<StructReferenceView>, info: EntryInfoView, clump: i16) -> Result<
    ClumpCoordIndex,
    NuccError,
> {
    match spec_slot(names, info) {
        None => Err(NuccError::MalformedGraph),
        Some(slot) => if slot > u16::MAX {
            Err(NuccError::CountMismatch)
        } else {
            Ok(ClumpCoordIndex(clump, slot as u16))
        },
    }
}

/// The wire entries and edges that a tree is written as: the root at its
/// place, then its children's trees in order, each after the edge that
/// leads to it.
pub open spec fn spec_flat_tree(entry: EntryView, names: Seq<StructReferenceView>, clump: i16) -> Result<
    (Seq<ChunkEntryView>, Seq<ParentChildIndex>),
    NuccError,
>
    decreases entry,
{
    match spec_place(names, entry.entry_info, clump) {
        Err(e) => Err(e),
        Ok(place) => match spec_chunk_entry(entry, place) {
            Err(e) => Err(e),
            Ok(own) => match spec_flat_forest(entry.children, names, clump, Some(place)) {
                Err(e) => Err(e),
                Ok((entries, edges)) => Ok((seq![own] + entries, edges)),
            },
        },
    }
}

/// The wire entries and edges that the trees of a forest are written as,
/// one tree after the other. Where the roots have a parent, each tree comes
/// after the edge from the parent to its root. The first tree that fails
/// decides.
pub open spec fn spec_flat_forest(
    forest: Seq<EntryView>,
    names: Seq<StructReferenceView>,
    clump: i16,
    parent: Option<ClumpCoordIndex>,
) -> Result<(Seq<ChunkEntryView>, Seq<ParentChildIndex>), NuccError>
    decreases forest,
{
    if forest.len() == 0 {
        Ok((seq![], seq![]))
    } else {
        match spec_flat_forest(forest.drop_last(), names, clump, parent) {
            Err(e) => Err(e),
            Ok((entries, edges)) => match spec_flat_tree(forest.last(), names, clump) {
                Err(e) => Err(e),
                Ok((more, below)) => Ok(
                    (
                        entries + more,
                        match parent {
                            Some(p) => edges.push(ParentChildIndex(p, more[0].coord_index))
                                + below,
                            None => edges + below,
                        },
                    ),
                ),
            },
        }
    }
}

/// When the trees before the `k`-th can be written and the `k`-th cannot,
/// the forest fails as the `k`-th tree does.
proof fn lemma_flat_forest_err(
    forest: Seq<EntryView>,
    names: Seq<StructReferenceView>,
    clump: i16,
    parent: Option<ClumpCoordIndex>,
    k: int,
)
    requires
        0 <= k < forest.len(),
        spec_flat_forest(forest.subrange(0, k), names, clump, parent) is Ok,
        spec_flat_tree(forest[k], names, clump) is Err,
    ensures
        spec_flat_forest(forest, names, clump, parent) == Err::<
            (Seq<ChunkEntryView>, Seq<ParentChildIndex>),
            NuccError,
        >(spec_flat_tree(forest[k], names, clump)->Err_0),
    decreases forest.len(),
{
    if k == forest.len() - 1 {
        assert(forest.drop_last() =~= forest.subrange(0, k));
    } else {
        assert(forest.drop_last().subrange(0, k) =~= forest.subrange(0, k));
        lemma_flat_forest_err(forest.drop_last(), names, clump, parent, k);
    }
}

/// The first place of `reference` among `names`, if it stands there.
fn slot_of(names: &Vec<NuccStructReference>, reference: &NuccStructReference) -> (r: Option<usize>)
    ensures
        r matches Some(i) ==> spec_position(views(names@), reference@) == Some(i as int),
        r is None ==> spec_position(views(names@), reference@) is None,
{
    let mut i: usize = 0;
    assert(views(names@).subrange(0, 0) =~= seq![]);
    while i < names.len()
        invariant
            i <= names.len(),
            spec_position(views(names@).subrange(0, i as int), reference@) is None,
        decreases names.len() - i,
    {
        let ghost next = views(names@).subrange(0, i + 1);
        proof {
            assert(next.drop_last() =~= views(names@).subrange(0, i as int));
            assert(next.last() == names@[i as int]@);
        }
        let same = names[i].0 == reference.0 && names[i].1.chunk_name == reference.1.chunk_name
            && names[i].1.file_path == reference.1.file_path && names[i].1.chunk_type
            == reference.1.chunk_type;
        if same {
            proof {
                assert(names@[i as int]@ == reference@);
                lemma_position_prefix(views(names@), reference@, i + 1);
            }
            return Some(i);
        }
        i += 1;
    }
    assert(views(names@).subrange(0, names.len() as int) =~= views(names@));
    None
}

/// An item that is found among the first `upto` items is found at the same
/// place among all.
pub proof fn lemma_position_prefix<K>(items: Seq<K>, item: K, upto: int)
    requires
        0 <= upto <= items.len(),
        spec_position(items.subrange(0, upto), item) is Some,
    ensures
        spec_position(items, item) == spec_position(items.subrange(0, upto), item),
    decreases items.len() - upto,
{
    if upto < items.len() {
        let more = items.subrange(0, upto + 1);
        assert(more.len() > 0);
        assert(more.drop_last() =~= items.subrange(0, upto));
        lemma_position_prefix(items, item, upto + 1);
    } else {
        assert(items.subrange(0, upto) =~= items);
    }
}

/// Appends the wire entries and edges of a tree.
pub(crate) fn flatten_tree(
    entry: &Entry,
    names: &Vec<NuccStructReference>,
    clump: i16,
    entries: &mut Vec<ChunkEntry>,
    edges: &mut Vec<ParentChildIndex>,
) -> (r: Result<ClumpCoordIndex, NuccError>)
    ensures
        r matches Ok(place) ==> spec_flat_tree(entry@, views(names@), clump) is Ok && views(
            final(entries)@,
        ) == views(old(entries)@) + spec_flat_tree(entry@, views(names@), clump)->Ok_0.0
            && final(edges)@ == old(edges)@ + spec_flat_tree(entry@, views(names@), clump)->Ok_0.1
            && spec_flat_tree(entry@, views(names@), clump)->Ok_0.0[0].coord_index == place,
        r matches Err(e) ==> spec_flat_tree(entry@, views(names@), clump) == Err::<
            (Seq<ChunkEntryView>, Seq<ParentChildIndex>),
            NuccError,
        >(e),
    decreases entry,
{
    let slot = match &entry.entry_info {
        EntryInfo::StructRef(reference) => match slot_of(names, reference) {
            Some(i) => i,
            None => { return Err(NuccError::MalformedGraph); },
        },
        EntryInfo::StructInfo(_) => { return Err(NuccError::MalformedGraph); },
    };
    if slot > 0xffff {
        return Err(NuccError::CountMismatch);
    }
    let place = ClumpCoordIndex(clump, slot as u16);
    let own = match entry.to_chunk(place) {
        Ok(c) => c,
        Err(e) => { return Err(e); },
    };
    let ghost start_entries = views(entries@);
    let ghost start_edges = edges@;
    entries.push(own);
    assert(views(entries@) =~= start_entries.push(own@));
    proof {
        lemma_children_view(*entry);
    }
    match flatten_forest(&entry.children, names, clump, Some(place), entries, edges) {
        Ok(()) => {},
        Err(e) => { return Err(e); },
    }
    proof {
        let below = spec_flat_forest(entry@.children, views(names@), clump, Some(place))->Ok_0;
        assert(views(entries@) =~= start_entries + (seq![own@] + below.0));
    }
    Ok(place)
}

/// Appends the wire entries and edges of the trees of a forest.
pub(crate) fn flatten_forest(
    forest: &Vec<Entry>,
    names: &Vec<NuccStructReference>,
    clump: i16,
    parent: Option<ClumpCoordIndex>,
    entries: &mut Vec<ChunkEntry>,
    edges: &mut Vec<ParentChildIndex>,
) -> (r: Result<(), NuccError>)
    ensures
        r is Ok ==> spec_flat_forest(views(forest@), views(names@), clump, parent) is Ok && views(
            final(entries)@,
        ) == views(old(entries)@) + spec_flat_forest(
            views(forest@),
            views(names@),
            clump,
            parent,
        )->Ok_0.0 && final(edges)@ == old(edges)@ + spec_flat_forest(
            views(forest@),
            views(names@),
            clump,
            parent,
        )->Ok_0.1,
        r matches Err(e) ==> spec_flat_forest(views(forest@), views(names@), clump, parent)
            == Err::<(Seq<ChunkEntryView>, Seq<ParentChildIndex>), NuccError>(e),
    decreases forest,
{
    let ghost start_entries = views(entries@);
    let ghost start_edges = edges@;
    let mut i: usize = 0;
    proof {
        assert(views(forest@).subrange(0, 0) =~= seq![]);
        assert(start_entries + Seq::<ChunkEntryView>::empty() =~= start_entries);
        assert(start_edges + Seq::<ParentChildIndex>::empty() =~= start_edges);
    }
    while i < forest.len()
        invariant
            i <= forest.len(),
            spec_flat_forest(views(forest@).subrange(0, i as int), views(names@), clump, parent) is Ok,
            views(entries@) == start_entries + spec_flat_forest(
                views(forest@).subrange(0, i as int),
                views(names@),
                clump,
                parent,
            )->Ok_0.0,
            edges@ == start_edges + spec_flat_forest(
                views(forest@).subrange(0, i as int),
                views(names@),
                clump,
                parent,
            )->Ok_0.1,
        decreases forest.len() - i,
    {
        let ghost part = views(forest@).subrange(0, i as int);
        let ghost next = views(forest@).subrange(0, i + 1);
        let ghost done = spec_flat_forest(part, views(names@), clump, parent)->Ok_0;
        proof {
            assert(next.drop_last() =~= part);
            assert(next.last() == forest@[i as int]@);
        }
        let ghost entries_before = views(entries@);
        let ghost edges_before = edges@;
        // The edge to a child stands before the edges below that child, so
        // it is entered first and completed once the child's place is known.
        let at = edges.len();
        if parent.is_some() {
            edges.push(ParentChildIndex(parent.unwrap(), ClumpCoordIndex(0, 0)));
        }
        match flatten_tree(&forest[i], names, clump, entries, edges) {
            Ok(place) => {
                if parent.is_some() {
                    edges.set(at, ParentChildIndex(parent.unwrap(), place));
                }
                proof {
                    let tree = spec_flat_tree(forest@[i as int]@, views(names@), clump)->Ok_0;
                    assert(views(entries@) =~= start_entries + (done.0 + tree.0));
                    match parent {
                        Some(p) => {
                            assert(edges@ =~= start_edges + (done.1.push(
                                ParentChildIndex(p, tree.0[0].coord_index),
                            ) + tree.1));
                        },
                        None => {
                            assert(edges@ =~= start_edges + (done.1 + tree.1));
                        },
                    }
                }
            },
            Err(e) => {
                proof {
                    lemma_flat_forest_err(views(forest@), views(names@), clump, parent, i as int);
                }
                return Err(e);
            },
        }
        i += 1;
    }
    assert(views(forest@).subrange(0, forest.len() as int) =~= views(forest@));
    Ok(())
}

/// The curves of an entry are written with one header for each, which
/// announces as many bytes as the curve takes.
pub proof fn lemma_chunk_curves_sized(channels: Seq<Channel>, curves: Seq<CurveView>, upto: int)
    requires
        0 <= upto <= curves.len(),
        spec_chunk_curves(channels, curves, upto) is Ok,
    ensures
        spec_chunk_curves(channels, curves, upto)->Ok_0.0.len() == upto,
        spec_chunk_curves(channels, curves, upto)->Ok_0.1.len() == upto,
        forall|k: int|
            0 <= k < upto ==> crate::nucc_chunk::nucc_chunk_anm::curve::spec_curve_len(
                (#[trigger] spec_chunk_curves(channels, curves, upto)->Ok_0.0[k]).curve_format,
                spec_chunk_curves(channels, curves, upto)->Ok_0.0[k].frame_count as int,
            ) == Some(spec_chunk_curves(channels, curves, upto)->Ok_0.1[k].len() as int),
    decreases upto,
{
    if upto > 0 {
        lemma_chunk_curves_sized(channels, curves, upto - 1);
        let index = spec_curve_index(channels, curves, upto - 1)->Some_0;
        lemma_written_curve_len(curves[upto - 1], index as u16);
    }
}

/// A written entry is sized: each of its curves takes as many bytes as its
/// header announces.
pub proof fn lemma_chunk_entry_sized(entry: EntryView, place: ClumpCoordIndex)
    requires
        spec_chunk_entry(entry, place) is Ok,
    ensures
        spec_entry_sized(spec_chunk_entry(entry, place)->Ok_0),
        spec_chunk_entry(entry, place)->Ok_0.coord_index == place,
{
    lemma_chunk_curves_sized(
        spec_channels(entry.entry_format),
        entry.curves,
        entry.curves.len() as int,
    );
}

/// The entries that a tree is written as are sized.
pub proof fn lemma_flat_tree_sized(entry: EntryView, names: Seq<StructReferenceView>, clump: i16)
    requires
        spec_flat_tree(entry, names, clump) is Ok,
    ensures
        spec_flat_tree(entry, names, clump)->Ok_0.0.len() >= 1,
        forall|i: int|
            0 <= i < spec_flat_tree(entry, names, clump)->Ok_0.0.len() ==> spec_entry_sized(
                #[trigger] spec_flat_tree(entry, names, clump)->Ok_0.0[i],
            ),
    decreases entry,
{
    let place = spec_place(names, entry.entry_info, clump)->Ok_0;
    lemma_chunk_entry_sized(entry, place);
    lemma_flat_forest_sized(entry.children, names, clump, Some(place));
    let own = spec_chunk_entry(entry, place)->Ok_0;
    let below = spec_flat_forest(entry.children, names, clump, Some(place))->Ok_0.0;
    let all = spec_flat_tree(entry, names, clump)->Ok_0.0;
    assert forall|i: int| 0 <= i < all.len() implies spec_entry_sized(#[trigger] all[i]) by {
        if i > 0 {
            assert(all[i] == below[i - 1]);
        }
    }
}

/// The entries that a forest is written as are sized.
pub proof fn lemma_flat_forest_sized(
    forest: Seq<EntryView>,
    names: Seq<StructReferenceView>,
    clump: i16,
    parent: Option<ClumpCoordIndex>,
)
    requires
        spec_flat_forest(forest, names, clump, parent) is Ok,
    ensures
        forall|i: int|
            0 <= i < spec_flat_forest(forest, names, clump, parent)->Ok_0.0.len()
                ==> spec_entry_sized(
                #[trigger] spec_flat_forest(forest, names, clump, parent)->Ok_0.0[i],
            ),
    decreases forest,
{
    if forest.len() > 0 {
        lemma_flat_forest_sized(forest.drop_last(), names, clump, parent);
        lemma_flat_tree_sized(forest.last(), names, clump);
        let front = spec_flat_forest(forest.drop_last(), names, clump, parent)->Ok_0.0;
        let tree = spec_flat_tree(forest.last(), names, clump)->Ok_0.0;
        let all = spec_flat_forest(forest, names, clump, parent)->Ok_0.0;
        assert forall|i: int| 0 <= i < all.len() implies spec_entry_sized(#[trigger] all[i]) by {
            if i < front.len() {
                assert(all[i] == front[i]);
            } else {
                assert(all[i] == tree[i - front.len()]);
            }
        }
    }
}

} // verus!
