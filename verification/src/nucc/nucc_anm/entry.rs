//! Entries: the animated objects of a clump, arranged as trees.

use vstd::prelude::*;

use crate::error::NuccError;
use crate::nucc::nucc_anm::curve::spec_accepts;
use crate::nucc::nucc_anm::curve::spec_curve;
use crate::nucc::nucc_anm::curve::Channel;
use crate::nucc::nucc_anm::curve::Curve;
use crate::nucc::nucc_anm::curve::CurveView;
use crate::nucc::views;
use crate::nucc::NuccStructInfo;
use crate::nucc::NuccStructReference;
use crate::nucc::StructInfoView;
use crate::nucc::StructReferenceView;
use crate::nucc_chunk::nucc_chunk_anm::curve::CurveHeader;
use crate::nucc_chunk::nucc_chunk_anm::entry::Entry as ChunkEntry;
use crate::nucc_chunk::nucc_chunk_anm::entry::EntryFormat as ChunkEntryFormat;
use crate::nucc_chunk::nucc_chunk_anm::entry::EntryView as ChunkEntryView;

verus! {

/// What kind of object an entry animates.
#[derive(Debug, Clone, Copy, PartialEq, Eq, Structural)]
pub enum EntryFormat {
    Coord,
    Camera,
    Material,
    LightDirc,
    LightPoint,
    Ambient,
}

/// The channels of each kind of entry, in the order in which curve headers
/// number them.
pub open spec fn spec_channels(format: EntryFormat) -> Seq<Channel> {
    match format {
        EntryFormat::Coord => seq![
            Channel::Location,
            Channel::Rotation,
            Channel::Scale,
            Channel::Opacity,
        ],
        EntryFormat::Camera => seq![Channel::Location, Channel::Rotation, Channel::Fov],
        EntryFormat::Material => Seq::new(18, |i: int| Channel::Property),
        EntryFormat::LightDirc => seq![Channel::Color, Channel::Property, Channel::Rotation],
        EntryFormat::LightPoint => seq![
            Channel::Color,
            Channel::Property,
            Channel::Location,
            Channel::Property,
            Channel::Property,
        ],
        EntryFormat::Ambient => seq![Channel::Color, Channel::Property],
    }
}

/// The kind of entry that a wire format stands for.
pub open spec fn spec_format_of(format: ChunkEntryFormat) -> EntryFormat {
    match format {
        ChunkEntryFormat::Coord => EntryFormat::Coord,
        ChunkEntryFormat::Camera => EntryFormat::Camera,
        ChunkEntryFormat::Material => EntryFormat::Material,
        ChunkEntryFormat::LightDirc => EntryFormat::LightDirc,
        ChunkEntryFormat::LightPoint => EntryFormat::LightPoint,
        ChunkEntryFormat::Ambient => EntryFormat::Ambient,
    }
}

/// The wire format of a kind of entry.
pub open spec fn spec_chunk_format(format: EntryFormat) -> ChunkEntryFormat {
    match format {
        EntryFormat::Coord => ChunkEntryFormat::Coord,
        EntryFormat::Camera => ChunkEntryFormat::Camera,
        EntryFormat::Material => ChunkEntryFormat::Material,
        EntryFormat::LightDirc => ChunkEntryFormat::LightDirc,
        EntryFormat::LightPoint => ChunkEntryFormat::LightPoint,
        EntryFormat::Ambient => ChunkEntryFormat::Ambient,
    }
}

impl EntryFormat {
    /// The channels of this kind of entry, in the order in which curve
    /// headers number them.
    pub fn iter_channels(&self) -> (r: Vec<Channel>)
        ensures
            r@ == spec_channels(*self),
    {
        let mut out: Vec<Channel> = Vec::new();
        match self {
            EntryFormat::Coord => {
                out.push(Channel::Location);
                out.push(Channel::Rotation);
                out.push(Channel::Scale);
                out.push(Channel::Opacity);
            },
            EntryFormat::Camera => {
                out.push(Channel::Location);
                out.push(Channel::Rotation);
                out.push(Channel::Fov);
            },
            EntryFormat::Material => {
                let mut i: usize = 0;
                while i < 18
                    invariant
                        i <= 18,
                        out@ == Seq::new(i as nat, |k: int| Channel::Property),
                    decreases 18 - i,
                {
                    out.push(Channel::Property);
                    i += 1;
                    assert(out@ =~= Seq::new(i as nat, |k: int| Channel::Property));
                }
            },
            EntryFormat::LightDirc => {
                out.push(Channel::Color);
                out.push(Channel::Property);
                out.push(Channel::Rotation);
            },
            EntryFormat::LightPoint => {
                out.push(Channel::Color);
                out.push(Channel::Property);
                out.push(Channel::Location);
                out.push(Channel::Property);
                out.push(Channel::Property);
            },
            EntryFormat::Ambient => {
                out.push(Channel::Color);
                out.push(Channel::Property);
            },
        }
        assert(out@ =~= spec_channels(*self));
        out
    }

    /// The kind of entry that a wire format stands for.
    pub fn from_chunk(format: ChunkEntryFormat) -> (r: EntryFormat)
        ensures
            r == spec_format_of(format),
    {
        match format {
            ChunkEntryFormat::Coord => EntryFormat::Coord,
            ChunkEntryFormat::Camera => EntryFormat::Camera,
            ChunkEntryFormat::Material => EntryFormat::Material,
            ChunkEntryFormat::LightDirc => EntryFormat::LightDirc,
            ChunkEntryFormat::LightPoint => EntryFormat::LightPoint,
            ChunkEntryFormat::Ambient => EntryFormat::Ambient,
        }
    }

    /// The wire format of this kind of entry.
    pub fn to_chunk(&self) -> (r: ChunkEntryFormat)
        ensures
            r == spec_chunk_format(*self),
    {
        match self {
            EntryFormat::Coord => ChunkEntryFormat::Coord,
            EntryFormat::Camera => ChunkEntryFormat::Camera,
            EntryFormat::Material => ChunkEntryFormat::Material,
            EntryFormat::LightDirc => ChunkEntryFormat::LightDirc,
            EntryFormat::LightPoint => ChunkEntryFormat::LightPoint,
            EntryFormat::Ambient => ChunkEntryFormat::Ambient,
        }
    }
}

/// Who an entry belongs to: an entry of a clump is named by a reference, an
/// entry outside every clump by an identity.
#[derive(Debug, PartialEq, Eq)]
pub enum EntryInfo {
    StructInfo(NuccStructInfo),
    StructRef(NuccStructReference),
}

/// An `EntryInfo` as plain values.
pub enum EntryInfoView {
    StructInfo(StructInfoView),
    StructRef(StructReferenceView),
}

impl View for EntryInfo {
    type V = EntryInfoView;

    open spec fn view(&self) -> EntryInfoView {
        match self {
            EntryInfo::StructInfo(info) => EntryInfoView::StructInfo(info@),
            EntryInfo::StructRef(reference) => EntryInfoView::StructRef(reference@),
        }
    }
}

impl Clone for EntryInfo {
    fn clone(&self) -> (r: Self)
        ensures
            r@ == self@,
    {
        match self {
            EntryInfo::StructInfo(info) => EntryInfo::StructInfo(info.clone()),
            EntryInfo::StructRef(reference) => EntryInfo::StructRef(reference.clone()),
        }
    }
}

/// The identity that an entry has before any is assigned: three empty
/// texts.
pub open spec fn spec_no_info() -> EntryInfoView {
    EntryInfoView::StructInfo(
        StructInfoView { chunk_name: seq![], file_path: seq![], chunk_type: seq![] },
    )
}

/// One animated object: who it belongs to, what kind it is, its curves,
/// and the entries below it.
#[derive(Debug, PartialEq, Eq)]
pub struct Entry {
    pub entry_info: EntryInfo,
    pub entry_format: EntryFormat,
    pub curves: Vec<Curve>,
    pub children: Vec<Entry>,
}

/// An `Entry` as plain values.
pub struct EntryView {
    pub entry_info: EntryInfoView,
    pub entry_format: EntryFormat,
    pub curves: Seq<CurveView>,
    pub children: Seq<EntryView>,
}

impl View for Entry {
    type V = EntryView;

    open spec fn view(&self) -> EntryView
        decreases self,
    {
        EntryView {
            entry_info: self.entry_info@,
            entry_format: self.entry_format,
            curves: views(self.curves@),
            children: Seq::new(
                self.children@.len(),
                |i: int|
                    if 0 <= i < self.children@.len() {
                        self.children@[i].view()
                    } else {
                        arbitrary()
                    },
            ),
        }
    }
}

/// The children of an entry, seen as plain values, are the views of its
/// children.
pub proof fn lemma_children_view(entry: Entry)
    ensures
        entry@.children == views(entry.children@),
{
    reveal_with_fuel(<Entry as View>::view, 2);
    assert(entry@.children =~= views(entry.children@));
}

/// The curves that the headers and byte runs of a wire entry stand for,
/// from the `k`-th on: each header picks its channel from `channels` by its
/// curve index, and a curve index outside `channels` is
/// `InvalidKeyframes`. The first curve that fails decides. Headers without
/// a byte run, and byte runs without a header, are passed over.
pub open spec fn spec_curves_of(
    channels: Seq<Channel>,
    headers: Seq<CurveHeader>,
    runs: Seq<Seq<u8>>,
    k: int,
) -> Result<Seq<CurveView>, NuccError>
    decreases headers.len() - k,
{
    if k < 0 || k >= headers.len() || k >= runs.len() {
        Ok(seq![])
    } else if headers[k].curve_index >= channels.len() {
        Err(NuccError::InvalidKeyframes)
    } else {
        match spec_curve(channels[headers[k].curve_index as int], headers[k], runs[k]) {
            Err(e) => Err(e),
            Ok(curve) => match spec_curves_of(channels, headers, runs, k + 1) {
                Err(e) => Err(e),
                Ok(rest) => Ok(seq![curve] + rest),
            },
        }
    }
}

/// The entry that a wire entry stands for, without an identity and without
/// children.
pub open spec fn spec_entry_of(chunk: ChunkEntryView) -> Result<EntryView, NuccError> {
    let entry_format = spec_format_of(chunk.entry_format);
    match spec_curves_of(spec_channels(entry_format), chunk.curve_headers, chunk.curves, 0) {
        Err(e) => Err(e),
        Ok(curves) => Ok(
            EntryView { entry_info: spec_no_info(), entry_format, curves, children: seq![] },
        ),
    }
}

/// Every curve of a converted entry has keyframes of a kind that its
/// channel takes, and the channel is the one that the header of the curve
/// picks from the channel list of the entry.
pub proof fn lemma_converted_curves_suit_channels(
    channels: Seq<Channel>,
    headers: Seq<CurveHeader>,
    runs: Seq<Seq<u8>>,
    k: int,
)
    requires
        0 <= k,
        spec_curves_of(channels, headers, runs, k) is Ok,
    ensures
        forall|j: int|
            0 <= j < spec_curves_of(channels, headers, runs, k)->Ok_0.len() ==> {
                let curve = #[trigger] spec_curves_of(channels, headers, runs, k)->Ok_0[j];
                &&& spec_accepts(curve.channel, curve.keyframes)
                &&& k + j < headers.len()
                &&& headers[k + j].curve_index < channels.len()
                &&& curve.channel == channels[headers[k + j].curve_index as int]
            },
    decreases headers.len() - k,
{
    if k < headers.len() && k < runs.len() {
        lemma_converted_curves_suit_channels(channels, headers, runs, k + 1);
        let rest = spec_curves_of(channels, headers, runs, k + 1)->Ok_0;
        let all = spec_curves_of(channels, headers, runs, k)->Ok_0;
        assert forall|j: int| 0 <= j < all.len() implies {
            let curve = #[trigger] all[j];
            &&& spec_accepts(curve.channel, curve.keyframes)
            &&& k + j < headers.len()
            &&& headers[k + j].curve_index < channels.len()
            &&& curve.channel == channels[headers[k + j].curve_index as int]
        } by {
            if j > 0 {
                assert(all[j] == rest[j - 1]);
            }
        }
    }
}

/// The nodes of a forest in depth-first order, each tree's root before the
/// entries below it.
pub open spec fn spec_preorder(forest: Seq<EntryView>) -> Seq<EntryView>
    decreases forest,
{
    if forest.len() == 0 {
        seq![]
    } else {
        seq![forest[0]] + spec_preorder(forest[0].children) + spec_preorder(
            forest.subrange(1, forest.len() as int),
        )
    }
}

impl Default for Entry {
    fn default() -> (r: Self)
        ensures
            r@ == (EntryView {
                entry_info: spec_no_info(),
                entry_format: EntryFormat::Coord,
                curves: seq![],
                children: seq![],
            }),
    {
        let r = Entry {
            entry_info: EntryInfo::StructInfo(NuccStructInfo::default()),
            entry_format: EntryFormat::Coord,
            curves: Vec::new(),
            children: Vec::new(),
        };
        assert(r@.curves =~= seq![]);
        assert(r@.children =~= seq![]);
        r
    }
}

impl Entry {
    /// Converts a wire entry: its curves are decoded, each on the channel
    /// that its header picks. The result has no identity and no children
    /// yet.
    pub fn from_chunk(chunk: &ChunkEntry) -> (r: Result<Entry, NuccError>)
        ensures
            r matches Ok(entry) ==> spec_entry_of(chunk@) == Ok::<EntryView, NuccError>(entry@),
            r matches Err(e) ==> spec_entry_of(chunk@) == Err::<EntryView, NuccError>(e),
    {
        let entry_format = EntryFormat::from_chunk(chunk.entry_format);
        let channels = entry_format.iter_channels();
        let mut curves: Vec<Curve> = Vec::new();
        let mut k: usize = 0;
        let ghost headers = chunk.curve_headers@;
        let ghost runs = views(chunk.curves@);
        proof {
            assert(views(curves@) =~= seq![]);
            match spec_curves_of(channels@, headers, runs, 0) {
                Ok(rest) => {
                    assert(Seq::<CurveView>::empty() + rest =~= rest);
                },
                Err(e) => {},
            }
        }
        while k < chunk.curve_headers.len() && k < chunk.curves.len()
            invariant
                k <= chunk.curve_headers.len(),
                headers == chunk.curve_headers@,
                runs == views(chunk.curves@),
                channels@ == spec_channels(entry_format),
                entry_format == spec_format_of(chunk.entry_format),
                spec_curves_of(channels@, headers, runs, 0) == (match spec_curves_of(
                    channels@,
                    headers,
                    runs,
                    k as int,
                ) {
                    Ok(rest) => Ok::<Seq<CurveView>, NuccError>(views(curves@) + rest),
                    Err(e) => Err(e),
                }),
            decreases chunk.curve_headers.len() - k,
        {
            let ghost before = views(curves@);
            let header = chunk.curve_headers[k];
            if header.curve_index as usize >= channels.len() {
                return Err(NuccError::InvalidKeyframes);
            }
            let channel = channels[header.curve_index as usize];
            let curve = match Curve::decode(channel, header, &chunk.curves[k].data) {
                Ok(c) => c,
                Err(e) => { return Err(e); },
            };
            proof {
                match spec_curves_of(channels@, headers, runs, k + 1) {
                    Ok(rest) => {
                        assert(before + (seq![curve@] + rest) =~= before.push(curve@) + rest);
                    },
                    Err(e) => {},
                }
            }
            curves.push(curve);
            assert(views(curves@) =~= before.push(curve@));
            k += 1;
        }
        proof {
            assert(views(curves@) + Seq::<CurveView>::empty() =~= views(curves@));
        }
        let entry = Entry {
            entry_info: EntryInfo::StructInfo(NuccStructInfo::default()),
            entry_format,
            curves,
            children: Vec::new(),
        };
        assert(entry@.children =~= seq![]);
        Ok(entry)
    }

    /// The entries directly below this one.
    pub fn iter(&self) -> (r: &Vec<Entry>)
        ensures
            r == &self.children,
    {
        &self.children
    }

    /// The entries directly below this one, to be changed in place.
    pub fn iter_mut(&mut self) -> (r: &mut Vec<Entry>)
        ensures
            *r == old(self).children,
            *final(self) == (Entry { children: *final(r), ..*old(self) }),
    {
        &mut self.children
    }

    /// All entries below this one, in depth-first order.
    pub fn iter_recursive(&self) -> (r: EntryIter<'_>)
        ensures
            r.wf(),
            r.spec_rest() == spec_preorder(self@.children),
    {
        proof {
            lemma_children_view(*self);
        }
        EntryIter::from_entries(&self.children)
    }

    /// A copy of this entry without its children, under another identity.
    pub fn duplicate_as(&self, entry_info: EntryInfo) -> (r: Entry)
        ensures
            r@ == (EntryView { entry_info: entry_info@, children: seq![], ..self@ }),
    {
        let mut curves: Vec<Curve> = Vec::new();
        let mut i: usize = 0;
        while i < self.curves.len()
            invariant
                i <= self.curves.len(),
                views(curves@) == views(self.curves@).subrange(0, i as int),
            decreases self.curves.len() - i,
        {
            let ghost before = views(curves@);
            let c = self.curves[i].duplicate();
            curves.push(c);
            i += 1;
            assert(views(curves@) =~= before.push(c@));
            assert(views(curves@) =~= views(self.curves@).subrange(0, i as int));
        }
        assert(views(self.curves@).subrange(0, self.curves.len() as int) =~= views(self.curves@));
        let r = Entry { entry_info, entry_format: self.entry_format, curves, children: Vec::new() };
        assert(r@.children =~= seq![]);
        r
    }
}

/// Walks a forest in depth-first order, each tree's root before the entries
/// below it.
pub struct EntryIter<'a> {
    items: Vec<&'a Entry>,
    position: usize,
}

/// Appends the entries of a forest to `out` in depth-first order.
fn push_preorder<'a>(forest: &'a Vec<Entry>, out: &mut Vec<&'a Entry>)
    ensures
        views(final(out)@.map_values(|e: &Entry| *e)) == views(
            old(out)@.map_values(|e: &Entry| *e),
        ) + spec_preorder(views(forest@)),
    decreases forest,
{
    let mut i: usize = 0;
    let ghost start = views(out@.map_values(|e: &Entry| *e));
    proof {
        lemma_preorder_prefix(views(forest@), 0);
        assert(views(forest@).subrange(0, 0) =~= seq![]);
        assert(start + spec_preorder(seq![]) =~= start);
    }
    while i < forest.len()
        invariant
            i <= forest.len(),
            start == views(old(out)@.map_values(|e: &Entry| *e)),
            views(out@.map_values(|e: &Entry| *e)) == start + spec_preorder(
                views(forest@).subrange(0, i as int),
            ),
        decreases forest.len() - i,
    {
        let ghost before = views(out@.map_values(|e: &Entry| *e));
        let entry = &forest[i];
        out.push(entry);
        assert(views(out@.map_values(|e: &Entry| *e)) =~= before.push(entry@));
        let ghost middle = views(out@.map_values(|e: &Entry| *e));
        push_preorder(&entry.children, out);
        proof {
            lemma_children_view(*entry);
            lemma_preorder_prefix(views(forest@), i as int);
            let done = spec_preorder(views(forest@).subrange(0, i as int));
            let tree = seq![entry@] + spec_preorder(entry@.children);
            assert(views(out@.map_values(|e: &Entry| *e)) =~= start + (done + tree));
        }
        i += 1;
    }
    assert(views(forest@).subrange(0, forest.len() as int) =~= views(forest@));
}

/// The depth-first order of the first `k + 1` trees of a forest is that of
/// the first `k`, followed by the `k`-th root and what lies below it.
pub proof fn lemma_preorder_prefix(forest: Seq<EntryView>, k: int)
    requires
        0 <= k < forest.len() || (k == 0 && forest.len() == 0),
    ensures
        forest.len() > 0 ==> spec_preorder(forest.subrange(0, k + 1)) == spec_preorder(
            forest.subrange(0, k),
        ) + (seq![forest[k]] + spec_preorder(forest[k].children)),
        spec_preorder(Seq::<EntryView>::empty()) == Seq::<EntryView>::empty(),
    decreases k,
{
    if forest.len() > 0 {
        let whole = forest.subrange(0, k + 1);
        let tree = seq![forest[k]] + spec_preorder(forest[k].children);
        if k == 0 {
            assert(spec_preorder(Seq::<EntryView>::empty()) =~= Seq::<EntryView>::empty());
            assert(whole.len() == 1 && whole[0] == forest[0]);
            assert(whole.subrange(1, whole.len() as int) =~= Seq::<EntryView>::empty());
            assert(forest.subrange(0, 0) =~= Seq::<EntryView>::empty());
            assert(spec_preorder(whole) =~= tree);
            assert(Seq::<EntryView>::empty() + tree =~= tree);
        } else {
            let tail = forest.subrange(1, forest.len() as int);
            lemma_preorder_prefix(tail, k - 1);
            assert(whole.subrange(1, k + 1) =~= tail.subrange(0, k));
            let shorter = forest.subrange(0, k);
            assert(shorter.subrange(1, k) =~= tail.subrange(0, k - 1));
            assert(shorter[0] == forest[0] && whole[0] == forest[0]);
            assert(tail[k - 1] == forest[k]);
            let head = seq![forest[0]] + spec_preorder(forest[0].children);
            assert(spec_preorder(whole) == head + spec_preorder(tail.subrange(0, k)));
            assert(spec_preorder(shorter) == head + spec_preorder(tail.subrange(0, k - 1)));
            assert(head + (spec_preorder(tail.subrange(0, k - 1)) + tree) =~= (head
                + spec_preorder(tail.subrange(0, k - 1))) + tree);
        }
    }
}

impl<'a> EntryIter<'a> {
    /// The entries that are still to come, in order.
    pub closed spec fn spec_rest(&self) -> Seq<EntryView> {
        views(self.items@.map_values(|e: &Entry| *e)).subrange(
            self.position as int,
            self.items@.len() as int,
        )
    }

    /// Whether the iterator is in a state that its own functions leave it
    /// in.
    pub closed spec fn wf(&self) -> bool {
        self.position <= self.items@.len()
    }

    /// An iterator over a forest.
    pub fn from_entries(entries: &'a Vec<Entry>) -> (r: EntryIter<'a>)
        ensures
            r.wf(),
            r.spec_rest() == spec_preorder(views(entries@)),
    {
        let mut items: Vec<&'a Entry> = Vec::new();
        assert(views(items@.map_values(|e: &Entry| *e)) =~= seq![]);
        push_preorder(entries, &mut items);
        let r = EntryIter { items, position: 0 };
        assert(r.spec_rest() =~= spec_preorder(views(entries@)));
        r
    }

    /// The next entry, if any is left.
    pub fn next(&mut self) -> (r: Option<&'a Entry>)
        requires
            old(self).wf(),
        ensures
            final(self).wf(),
            old(self).spec_rest().len() == 0 ==> r is None && final(self).spec_rest() == old(
                self,
            ).spec_rest(),
            old(self).spec_rest().len() > 0 ==> r is Some && r->Some_0@ == old(
                self,
            ).spec_rest()[0] && final(self).spec_rest() == old(self).spec_rest().subrange(
                1,
                old(self).spec_rest().len() as int,
            ),
    {
        if self.position < self.items.len() {
            let item = self.items[self.position];
            self.position += 1;
            assert(self.spec_rest() =~= old(self).spec_rest().subrange(
                1,
                old(self).spec_rest().len() as int,
            ));
            Some(item)
        } else {
            None
        }
    }
}

} // verus!
