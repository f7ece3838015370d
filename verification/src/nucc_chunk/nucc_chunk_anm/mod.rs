//! The animation chunk as it lies in the file.

pub mod clump;
pub mod curve;
pub mod entry;

use vstd::prelude::*;

use crate::error::NuccError;
use crate::nucc::views;
use crate::nucc_chunk::NuccChunk;
use crate::nucc_chunk::NuccChunkType;
use crate::utils::be_u16;
use crate::utils::be_u32;
use crate::utils::fits;
use crate::utils::lemma_u16_at;
use crate::utils::lemma_u32_at;
use crate::utils::read_u16;
use crate::utils::read_u32;
use crate::utils::u16_be;
use crate::utils::u32_be;
use crate::utils::write_u16;
use crate::utils::write_u32;
use clump::lemma_clumps_round_trip;
use clump::lemma_edges_round_trip;
use clump::lemma_u32s_round_trip;
use clump::prepend;
use clump::read_u32s;
use clump::spec_clump_bytes;
use clump::spec_clumps;
use clump::spec_edges;
use clump::spec_edges_bytes;
use clump::spec_u32s;
use clump::spec_u32s_bytes;
use clump::write_u32s;
use clump::ClumpView;
use entry::lemma_entry_round_trip;
use entry::spec_entries;
use entry::spec_entry;
use entry::spec_entry_sized;
use entry::spec_entry_bytes;
use entry::EntryView;

pub use clump::Clump;
pub use clump::ClumpCoordIndex;
pub use clump::ParentChildIndex;
pub use curve::Curve;
pub use curve::CurveFormat;
pub use curve::CurveHeader;
pub use entry::Entry;
pub use entry::EntryFormat;

verus! {

/// An animation as the file holds it: flat lists of clumps, of entries
/// keyed by their place, and of the edges of the entry forest.
#[derive(Debug, PartialEq, Eq)]
pub struct NuccChunkAnm {
    pub version: u16,
    pub frame_count: u32,
    pub frame_size: u32,
    pub unk: u16,
    pub clumps: Vec<Clump>,
    pub other_entry_chunk_indices: Vec<u32>,
    pub unk_entry_chunk_indices: Vec<u32>,
    pub coord_parents: Vec<ParentChildIndex>,
    pub entries: Vec<Entry>,
}

/// A `NuccChunkAnm` as plain values.
pub struct ChunkAnmView {
    pub version: u16,
    pub frame_count: u32,
    pub frame_size: u32,
    pub unk: u16,
    pub clumps: Seq<ClumpView>,
    pub other_entry_chunk_indices: Seq<u32>,
    pub unk_entry_chunk_indices: Seq<u32>,
    pub coord_parents: Seq<ParentChildIndex>,
    pub entries: Seq<EntryView>,
}

impl View for NuccChunkAnm {
    type V = ChunkAnmView;

    open spec fn view(&self) -> ChunkAnmView {
        ChunkAnmView {
            version: self.version,
            frame_count: self.frame_count,
            frame_size: self.frame_size,
            unk: self.unk,
            clumps: views(self.clumps@),
            other_entry_chunk_indices: self.other_entry_chunk_indices@,
            unk_entry_chunk_indices: self.unk_entry_chunk_indices@,
            coord_parents: self.coord_parents@,
            entries: views(self.entries@),
        }
    }
}

impl NuccChunk for NuccChunkAnm {
    open spec fn spec_chunk_type(&self) -> NuccChunkType {
        NuccChunkType::NuccChunkAnm
    }

    open spec fn spec_version(&self) -> u16 {
        self.version
    }

    fn chunk_type(&self) -> (t: NuccChunkType) {
        NuccChunkType::NuccChunkAnm
    }

    fn version(&self) -> (v: u16) {
        self.version
    }
}

/// Length of the fixed part that opens an animation payload.
pub open spec fn anm_head_len() -> int {
    20
}

/// An animation as its payload gives it. The fixed part holds two `u32`
/// and six `u16`, the last four of which count the clumps, the other
/// entries, the unknown entries and the edges; the lists follow in that
/// order, and the entries come last. What follows them is not looked at.
#[verifier::opaque]
pub open spec fn spec_anm(data: Seq<u8>, version: u16) -> Result<ChunkAnmView, NuccError> {
    if !fits(data, 0, anm_head_len()) {
        Err(NuccError::TruncatedInput)
    } else {
        let entry_count = be_u16(data, 8);
        let clump_count = be_u16(data, 12);
        let other_count = be_u16(data, 14);
        let unk_count = be_u16(data, 16);
        let coord_count = be_u16(data, 18);
        match spec_clumps(data, anm_head_len(), clump_count as nat) {
            Err(e) => Err(e),
            Ok((clumps, others_at)) => {
                let unks_at = others_at + 4 * other_count;
                let edges_at = unks_at + 4 * unk_count;
                let entries_at = edges_at + 8 * coord_count;
                if !fits(data, others_at, 4 * other_count) {
                    Err(NuccError::TruncatedInput)
                } else if !fits(data, unks_at, 4 * unk_count) {
                    Err(NuccError::TruncatedInput)
                } else if !fits(data, edges_at, 8 * coord_count) {
                    Err(NuccError::TruncatedInput)
                } else {
                    match spec_entries(data, entries_at, entry_count as nat) {
                        Err(e) => Err(e),
                        Ok((entries, end)) => Ok(
                            ChunkAnmView {
                                version,
                                frame_count: be_u32(data, 0) as u32,
                                frame_size: be_u32(data, 4) as u32,
                                unk: be_u16(data, 10) as u16,
                                clumps,
                                other_entry_chunk_indices: spec_u32s(data, others_at, other_count),
                                unk_entry_chunk_indices: spec_u32s(data, unks_at, unk_count),
                                coord_parents: spec_edges(data, edges_at, coord_count),
                                entries,
                            },
                        ),
                    }
                }
            },
        }
    }
}

/// The bytes of a run of clumps; the first clump that cannot be written
/// decides.
pub open spec fn spec_clumps_bytes(clumps: Seq<ClumpView>) -> Result<Seq<u8>, NuccError>
    decreases clumps.len(),
{
    if clumps.len() == 0 {
        Ok(seq![])
    } else {
        match spec_clumps_bytes(clumps.drop_last()) {
            Err(e) => Err(e),
            Ok(front) => match spec_clump_bytes(clumps.last()) {
                Err(e) => Err(e),
                Ok(back) => Ok(front + back),
            },
        }
    }
}

/// The bytes of a run of entries; the first entry that cannot be written
/// decides.
pub open spec fn spec_entries_bytes(entries: Seq<EntryView>) -> Result<Seq<u8>, NuccError>
    decreases entries.len(),
{
    if entries.len() == 0 {
        Ok(seq![])
    } else {
        match spec_entries_bytes(entries.drop_last()) {
            Err(e) => Err(e),
            Ok(front) => match spec_entry_bytes(entries.last()) {
                Err(e) => Err(e),
                Ok(back) => Ok(front + back),
            },
        }
    }
}

/// Whether each of the five lists of an animation is short enough for its
/// 16-bit count.
pub open spec fn anm_counts_fit(anm: ChunkAnmView) -> bool {
    &&& anm.entries.len() <= u16::MAX
    &&& anm.clumps.len() <= u16::MAX
    &&& anm.other_entry_chunk_indices.len() <= u16::MAX
    &&& anm.unk_entry_chunk_indices.len() <= u16::MAX
    &&& anm.coord_parents.len() <= u16::MAX
}

/// The fixed part that opens the payload of an animation.
pub open spec fn spec_anm_head(anm: ChunkAnmView) -> Seq<u8> {
    u32_be(anm.frame_count) + u32_be(anm.frame_size) + u16_be(anm.entries.len() as u16) + u16_be(
        anm.unk,
    ) + u16_be(anm.clumps.len() as u16) + u16_be(anm.other_entry_chunk_indices.len() as u16)
        + u16_be(anm.unk_entry_chunk_indices.len() as u16) + u16_be(
        anm.coord_parents.len() as u16,
    )
}

/// The payload of an animation: the fixed part with the counts of the
/// lists, then the lists. A list too long for its count is a
/// `CountMismatch`; then the first clump, and after the clumps the first
/// entry, that cannot be written decides.
pub open spec fn spec_anm_bytes(anm: ChunkAnmView) -> Result<Seq<u8>, NuccError> {
    if !anm_counts_fit(anm) {
        Err(NuccError::CountMismatch)
    } else {
        match spec_clumps_bytes(anm.clumps) {
            Err(e) => Err(e),
            Ok(clumps) => match spec_entries_bytes(anm.entries) {
                Err(e) => Err(e),
                Ok(entries) => Ok(
                    spec_anm_head(anm) + clumps + spec_u32s_bytes(anm.other_entry_chunk_indices)
                        + spec_u32s_bytes(anm.unk_entry_chunk_indices) + spec_edges_bytes(
                        anm.coord_parents,
                    ) + entries,
                ),
            },
        }
    }
}

impl NuccChunkAnm {
    /// Reads an animation from its payload.
    pub fn read(data: &Vec<u8>, version: u16) -> (r: Result<NuccChunkAnm, NuccError>)
        ensures
            r matches Ok(anm) ==> spec_anm(data@, version) == Ok::<ChunkAnmView, NuccError>(anm@),
            r matches Err(e) ==> spec_anm(data@, version) == Err::<ChunkAnmView, NuccError>(e),
    {
        reveal(spec_anm);
        if data.len() < 20 {
            return Err(NuccError::TruncatedInput);
        }
        let frame_count = match read_u32(data, 0) {
            Ok(v) => v,
            Err(e) => { return Err(e); },
        };
        let frame_size = match read_u32(data, 4) {
            Ok(v) => v,
            Err(e) => { return Err(e); },
        };
        let entry_count = match read_u16(data, 8) {
            Ok(v) => v,
            Err(e) => { return Err(e); },
        };
        let unk = match read_u16(data, 10) {
            Ok(v) => v,
            Err(e) => { return Err(e); },
        };
        let clump_count = match read_u16(data, 12) {
            Ok(v) => v,
            Err(e) => { return Err(e); },
        };
        let other_count = match read_u16(data, 14) {
            Ok(v) => v,
            Err(e) => { return Err(e); },
        };
        let unk_count = match read_u16(data, 16) {
            Ok(v) => v,
            Err(e) => { return Err(e); },
        };
        let coord_count = match read_u16(data, 18) {
            Ok(v) => v,
            Err(e) => { return Err(e); },
        };
        let (clumps, others_at) = match Clump::read_all(data, 20, clump_count) {
            Ok(v) => v,
            Err(e) => { return Err(e); },
        };
        let other_entry_chunk_indices = match read_u32s(data, others_at, other_count as usize) {
            Ok(v) => v,
            Err(e) => { return Err(e); },
        };
        let unks_at: usize = others_at + 4 * (other_count as usize);
        let unk_entry_chunk_indices = match read_u32s(data, unks_at, unk_count as usize) {
            Ok(v) => v,
            Err(e) => { return Err(e); },
        };
        let edges_at: usize = unks_at + 4 * (unk_count as usize);
        let coord_parents = match ParentChildIndex::read_all(data, edges_at, coord_count) {
            Ok(v) => v,
            Err(e) => { return Err(e); },
        };
        let entries_at: usize = edges_at + 8 * (coord_count as usize);
        let (entries, end) = match Entry::read_all(data, entries_at, entry_count) {
            Ok(v) => v,
            Err(e) => { return Err(e); },
        };
        Ok(
            NuccChunkAnm {
                version,
                frame_count,
                frame_size,
                unk,
                clumps,
                other_entry_chunk_indices,
                unk_entry_chunk_indices,
                coord_parents,
                entries,
            },
        )
    }

    /// Appends the fixed part that opens the payload.
    fn write_head(&self, out: &mut Vec<u8>)
        requires
            anm_counts_fit(self@),
        ensures
            final(out)@ == old(out)@ + spec_anm_head(self@),
    {
        write_u32(out, self.frame_count);
        write_u32(out, self.frame_size);
        write_u16(out, self.entries.len() as u16);
        write_u16(out, self.unk);
        write_u16(out, self.clumps.len() as u16);
        write_u16(out, self.other_entry_chunk_indices.len() as u16);
        write_u16(out, self.unk_entry_chunk_indices.len() as u16);
        write_u16(out, self.coord_parents.len() as u16);
        assert(out@ =~= old(out)@ + spec_anm_head(self@));
    }

    /// Appends the payload of this animation.
    pub fn write(&self, out: &mut Vec<u8>) -> (r: Result<(), NuccError>)
        ensures
            r is Ok ==> spec_anm_bytes(self@) is Ok && final(out)@ == old(out)@ + spec_anm_bytes(
                self@,
            )->Ok_0,
            r matches Err(e) ==> spec_anm_bytes(self@) == Err::<Seq<u8>, NuccError>(e),
    {
        if self.entries.len() > 0xffff || self.clumps.len() > 0xffff
            || self.other_entry_chunk_indices.len() > 0xffff
            || self.unk_entry_chunk_indices.len() > 0xffff || self.coord_parents.len() > 0xffff {
            return Err(NuccError::CountMismatch);
        }
        self.write_head(out);
        let ghost s1 = out@;
        match write_clumps(out, &self.clumps) {
            Ok(()) => {},
            Err(e) => { return Err(e); },
        }
        let ghost s2 = out@;
        write_u32s(out, &self.other_entry_chunk_indices);
        let ghost s3 = out@;
        write_u32s(out, &self.unk_entry_chunk_indices);
        let ghost s4 = out@;
        ParentChildIndex::write_all(out, &self.coord_parents);
        let ghost s5 = out@;
        match write_entries(out, &self.entries) {
            Ok(()) => {},
            Err(e) => { return Err(e); },
        }
        proof {
            let a = spec_anm_head(self@);
            let b = spec_clumps_bytes(self@.clumps)->Ok_0;
            let c = spec_u32s_bytes(self@.other_entry_chunk_indices);
            let d = spec_u32s_bytes(self@.unk_entry_chunk_indices);
            let e = spec_edges_bytes(self@.coord_parents);
            let f = spec_entries_bytes(self@.entries)->Ok_0;
            assert(s1 == old(out)@ + a);
            assert(s2 == s1 + b);
            assert(s3 == s2 + c);
            assert(s4 == s3 + d);
            assert(s5 == s4 + e);
            assert(out@ == s5 + f);
            assert(out@ =~= old(out)@ + (a + b + c + d + e + f));
        }
        Ok(())
    }
}

/// Appends the bytes of a run of clumps.
pub fn write_clumps(out: &mut Vec<u8>, clumps: &Vec<Clump>) -> (r: Result<(), NuccError>)
    ensures
        r is Ok ==> spec_clumps_bytes(views(clumps@)) is Ok && final(out)@ == old(out)@
            + spec_clumps_bytes(views(clumps@))->Ok_0,
        r matches Err(e) ==> spec_clumps_bytes(views(clumps@)) == Err::<Seq<u8>, NuccError>(e),
{
    let mut i: usize = 0;
    while i < clumps.len()
        invariant
            i <= clumps.len(),
            spec_clumps_bytes(views(clumps@).subrange(0, i as int)) is Ok,
            out@ == old(out)@ + spec_clumps_bytes(views(clumps@).subrange(0, i as int))->Ok_0,
        decreases clumps.len() - i,
    {
        let ghost next = views(clumps@).subrange(0, i + 1);
        proof {
            assert(next.drop_last() =~= views(clumps@).subrange(0, i as int));
            assert(next.last() == clumps@[i as int]@);
        }
        match clumps[i].write(out) {
            Ok(()) => {},
            Err(e) => {
                proof {
                    lemma_clumps_bytes_err(views(clumps@), i as int);
                }
                return Err(e);
            },
        }
        assert(out@ =~= old(out)@ + spec_clumps_bytes(next)->Ok_0);
        i += 1;
    }
    assert(views(clumps@).subrange(0, clumps.len() as int) =~= views(clumps@));
    Ok(())
}

/// Appends the bytes of a run of entries.
pub fn write_entries(out: &mut Vec<u8>, entries: &Vec<Entry>) -> (r: Result<(), NuccError>)
    ensures
        r is Ok ==> spec_entries_bytes(views(entries@)) is Ok && final(out)@ == old(out)@
            + spec_entries_bytes(views(entries@))->Ok_0,
        r matches Err(e) ==> spec_entries_bytes(views(entries@)) == Err::<Seq<u8>, NuccError>(e),
{
    let mut j: usize = 0;
    while j < entries.len()
        invariant
            j <= entries.len(),
            spec_entries_bytes(views(entries@).subrange(0, j as int)) is Ok,
            out@ == old(out)@ + spec_entries_bytes(views(entries@).subrange(0, j as int))->Ok_0,
        decreases entries.len() - j,
    {
        let ghost next = views(entries@).subrange(0, j + 1);
        proof {
            assert(next.drop_last() =~= views(entries@).subrange(0, j as int));
            assert(next.last() == entries@[j as int]@);
        }
        match entries[j].write(out) {
            Ok(()) => {},
            Err(e) => {
                proof {
                    lemma_entries_bytes_err(views(entries@), j as int);
                }
                return Err(e);
            },
        }
        assert(out@ =~= old(out)@ + spec_entries_bytes(next)->Ok_0);
        j += 1;
    }
    assert(views(entries@).subrange(0, entries.len() as int) =~= views(entries@));
    Ok(())
}

/// When the clumps before the `k`-th can be written and the `k`-th cannot,
/// the run fails as the `k`-th does.
proof fn lemma_clumps_bytes_err(clumps: Seq<ClumpView>, k: int)
    requires
        0 <= k < clumps.len(),
        spec_clumps_bytes(clumps.subrange(0, k)) is Ok,
        spec_clump_bytes(clumps[k]) is Err,
    ensures
        spec_clumps_bytes(clumps) == Err::<Seq<u8>, NuccError>(spec_clump_bytes(clumps[k])->Err_0),
    decreases clumps.len(),
{
    if k == clumps.len() - 1 {
        assert(clumps.drop_last() =~= clumps.subrange(0, k));
    } else {
        assert(clumps.drop_last().subrange(0, k) =~= clumps.subrange(0, k));
        lemma_clumps_bytes_err(clumps.drop_last(), k);
    }
}

/// When the entries before the `k`-th can be written and the `k`-th
/// cannot, the run fails as the `k`-th does.
proof fn lemma_entries_bytes_err(entries: Seq<EntryView>, k: int)
    requires
        0 <= k < entries.len(),
        spec_entries_bytes(entries.subrange(0, k)) is Ok,
        spec_entry_bytes(entries[k]) is Err,
    ensures
        spec_entries_bytes(entries) == Err::<Seq<u8>, NuccError>(
            spec_entry_bytes(entries[k])->Err_0,
        ),
    decreases entries.len(),
{
    if k == entries.len() - 1 {
        assert(entries.drop_last() =~= entries.subrange(0, k));
    } else {
        assert(entries.drop_last().subrange(0, k) =~= entries.subrange(0, k));
        lemma_entries_bytes_err(entries.drop_last(), k);
    }
}

/// The bytes of a run of entries with one more entry in front are the
/// bytes of that entry and then those of the run.
pub proof fn lemma_entries_bytes_front(first: EntryView, rest: Seq<EntryView>)
    ensures
        spec_entries_bytes(seq![first] + rest) == (match spec_entry_bytes(first) {
            Err(e) => Err::<Seq<u8>, NuccError>(e),
            Ok(head) => match spec_entries_bytes(rest) {
                Err(e) => Err(e),
                Ok(tail) => Ok(head + tail),
            },
        }),
    decreases rest.len(),
{
    let all = seq![first] + rest;
    let empty = Seq::<EntryView>::empty();
    assert(spec_entries_bytes(empty) == Ok::<Seq<u8>, NuccError>(Seq::<u8>::empty()));
    if rest.len() == 0 {
        assert(rest =~= empty);
        assert(all.drop_last() =~= empty);
        assert(all.last() == first);
        if spec_entry_bytes(first) is Ok {
            let head = spec_entry_bytes(first)->Ok_0;
            assert(Seq::<u8>::empty() + head =~= head + Seq::<u8>::empty());
        }
    } else {
        let shorter = rest.drop_last();
        lemma_entries_bytes_front(first, shorter);
        assert(all.drop_last() =~= seq![first] + shorter);
        assert(all.last() == rest.last());
        if spec_entry_bytes(first) is Ok && spec_entries_bytes(shorter) is Ok && spec_entry_bytes(
            rest.last(),
        ) is Ok {
            let head = spec_entry_bytes(first)->Ok_0;
            let middle = spec_entries_bytes(shorter)->Ok_0;
            let back = spec_entry_bytes(rest.last())->Ok_0;
            assert((head + middle) + back =~= head + (middle + back));
        }
    }
}

/// A run of entries whose curves take as many bytes as their headers
/// announce is read back from its bytes wherever they lie, and the reading
/// ends where the bytes end.
pub proof fn lemma_entries_round_trip(entries: Seq<EntryView>, front: Seq<u8>, tail: Seq<u8>)
    requires
        spec_entries_bytes(entries) is Ok,
        forall|i: int| 0 <= i < entries.len() ==> spec_entry_sized(#[trigger] entries[i]),
    ensures
        spec_entries(
            front + spec_entries_bytes(entries)->Ok_0 + tail,
            front.len() as int,
            entries.len(),
        ) == Ok::<(Seq<EntryView>, int), NuccError>(
            (entries, (front.len() + spec_entries_bytes(entries)->Ok_0.len()) as int),
        ),
    decreases entries.len(),
{
    let bytes = spec_entries_bytes(entries)->Ok_0;
    let whole = front + bytes + tail;
    if entries.len() == 0 {
        assert(entries =~= Seq::<EntryView>::empty());
    } else {
        let first = entries[0];
        let rest = entries.subrange(1, entries.len() as int);
        assert(entries =~= seq![first] + rest);
        lemma_entries_bytes_front(first, rest);
        let head = spec_entry_bytes(first)->Ok_0;
        let back = spec_entries_bytes(rest)->Ok_0;
        assert(bytes == head + back);
        let at = front.len() as int;
        let next = at + head.len();
        assert(spec_entry_sized(entries[0]));
        lemma_entry_round_trip(first, front, back + tail);
        assert(whole =~= front + head + (back + tail));
        assert(spec_entry(whole, at) == Ok::<(EntryView, int), NuccError>((first, next)));
        assert forall|i: int| 0 <= i < rest.len() implies spec_entry_sized(#[trigger] rest[i]) by {
            assert(rest[i] == entries[i + 1]);
        }
        lemma_entries_round_trip(rest, front + head, tail);
        assert(whole =~= (front + head) + back + tail);
        let end = next + back.len();
        assert(spec_entries(whole, next, rest.len()) == Ok::<(Seq<EntryView>, int), NuccError>(
            (rest, end),
        ));
        assert(spec_entries(whole, at, entries.len()) == prepend(
            seq![first],
            spec_entries(whole, next, (entries.len() - 1) as nat),
        ));
    }
}

/// The lists of an animation are read back from where they lie one behind
/// the other.
proof fn lemma_anm_lists_round_trip(anm: ChunkAnmView, front: Seq<u8>, tail: Seq<u8>)
    requires
        spec_clumps_bytes(anm.clumps) is Ok,
        spec_entries_bytes(anm.entries) is Ok,
        forall|i: int| 0 <= i < anm.entries.len() ==> spec_entry_sized(#[trigger] anm.entries[i]),
    ensures
        ({
            let b = spec_clumps_bytes(anm.clumps)->Ok_0;
            let c = spec_u32s_bytes(anm.other_entry_chunk_indices);
            let d = spec_u32s_bytes(anm.unk_entry_chunk_indices);
            let e = spec_edges_bytes(anm.coord_parents);
            let f = spec_entries_bytes(anm.entries)->Ok_0;
            let whole = front + b + c + d + e + f + tail;
            let others_at = (front.len() + b.len()) as int;
            let unks_at = others_at + 4 * anm.other_entry_chunk_indices.len() as int;
            let edges_at = unks_at + 4 * anm.unk_entry_chunk_indices.len() as int;
            let entries_at = edges_at + 8 * anm.coord_parents.len() as int;
            &&& spec_clumps(whole, front.len() as int, anm.clumps.len()) == Ok::<
                (Seq<ClumpView>, int),
                NuccError,
            >((anm.clumps, others_at))
            &&& fits(whole, others_at, 4 * anm.other_entry_chunk_indices.len() as int)
            &&& fits(whole, unks_at, 4 * anm.unk_entry_chunk_indices.len() as int)
            &&& fits(whole, edges_at, 8 * anm.coord_parents.len() as int)
            &&& spec_u32s(whole, others_at, anm.other_entry_chunk_indices.len() as int)
                == anm.other_entry_chunk_indices
            &&& spec_u32s(whole, unks_at, anm.unk_entry_chunk_indices.len() as int)
                == anm.unk_entry_chunk_indices
            &&& spec_edges(whole, edges_at, anm.coord_parents.len() as int) == anm.coord_parents
            &&& spec_entries(whole, entries_at, anm.entries.len()) is Ok
            &&& spec_entries(whole, entries_at, anm.entries.len())->Ok_0.0 == anm.entries
        }),
{
    let b = spec_clumps_bytes(anm.clumps)->Ok_0;
    let c = spec_u32s_bytes(anm.other_entry_chunk_indices);
    let d = spec_u32s_bytes(anm.unk_entry_chunk_indices);
    let e = spec_edges_bytes(anm.coord_parents);
    let f = spec_entries_bytes(anm.entries)->Ok_0;
    let whole = front + b + c + d + e + f + tail;
    lemma_clumps_round_trip(anm.clumps, front, c + d + e + f + tail);
    assert(whole =~= front + b + (c + d + e + f + tail));
    lemma_u32s_round_trip(anm.other_entry_chunk_indices, front + b, d + e + f + tail);
    assert(whole =~= (front + b) + c + (d + e + f + tail));
    lemma_u32s_round_trip(anm.unk_entry_chunk_indices, front + b + c, e + f + tail);
    assert(whole =~= (front + b + c) + d + (e + f + tail));
    lemma_edges_round_trip(anm.coord_parents, front + b + c + d, f + tail);
    assert(whole =~= (front + b + c + d) + e + (f + tail));
    lemma_entries_round_trip(anm.entries, front + b + c + d + e, tail);
}

/// What opens the payload of an animation is read from its bytes.
proof fn lemma_anm_head_at(whole: Seq<u8>, anm: ChunkAnmView)
    requires
        anm_counts_fit(anm),
        fits(whole, 0, 20),
        whole.subrange(0, 20) == spec_anm_head(anm),
    ensures
        be_u32(whole, 0) == anm.frame_count,
        be_u32(whole, 4) == anm.frame_size,
        be_u16(whole, 8) == anm.entries.len(),
        be_u16(whole, 10) == anm.unk,
        be_u16(whole, 12) == anm.clumps.len(),
        be_u16(whole, 14) == anm.other_entry_chunk_indices.len(),
        be_u16(whole, 16) == anm.unk_entry_chunk_indices.len(),
        be_u16(whole, 18) == anm.coord_parents.len(),
{
    let part = spec_anm_head(anm);
    assert(part.len() == 20);
    assert(whole.subrange(0, 4) =~= part.subrange(0, 4));
    assert(whole.subrange(4, 8) =~= part.subrange(4, 8));
    assert(whole.subrange(8, 10) =~= part.subrange(8, 10));
    assert(whole.subrange(10, 12) =~= part.subrange(10, 12));
    assert(whole.subrange(12, 14) =~= part.subrange(12, 14));
    assert(whole.subrange(14, 16) =~= part.subrange(14, 16));
    assert(whole.subrange(16, 18) =~= part.subrange(16, 18));
    assert(whole.subrange(18, 20) =~= part.subrange(18, 20));
    assert(part.subrange(0, 4) =~= u32_be(anm.frame_count));
    assert(part.subrange(4, 8) =~= u32_be(anm.frame_size));
    assert(part.subrange(8, 10) =~= u16_be(anm.entries.len() as u16));
    assert(part.subrange(10, 12) =~= u16_be(anm.unk));
    assert(part.subrange(12, 14) =~= u16_be(anm.clumps.len() as u16));
    assert(part.subrange(14, 16) =~= u16_be(anm.other_entry_chunk_indices.len() as u16));
    assert(part.subrange(16, 18) =~= u16_be(anm.unk_entry_chunk_indices.len() as u16));
    assert(part.subrange(18, 20) =~= u16_be(anm.coord_parents.len() as u16));
    lemma_u32_at(whole, 0, anm.frame_count);
    lemma_u32_at(whole, 4, anm.frame_size);
    lemma_u16_at(whole, 8, anm.entries.len() as u16);
    lemma_u16_at(whole, 10, anm.unk);
    lemma_u16_at(whole, 12, anm.clumps.len() as u16);
    lemma_u16_at(whole, 14, anm.other_entry_chunk_indices.len() as u16);
    lemma_u16_at(whole, 16, anm.unk_entry_chunk_indices.len() as u16);
    lemma_u16_at(whole, 18, anm.coord_parents.len() as u16);
}

/// An animation whose curves take as many bytes as their headers announce
/// is read back from its payload, whatever follows the payload.
pub proof fn lemma_anm_round_trip(anm: ChunkAnmView, tail: Seq<u8>)
    requires
        spec_anm_bytes(anm) is Ok,
        forall|i: int| 0 <= i < anm.entries.len() ==> spec_entry_sized(#[trigger] anm.entries[i]),
    ensures
        spec_anm(spec_anm_bytes(anm)->Ok_0 + tail, anm.version) == Ok::<ChunkAnmView, NuccError>(
            anm,
        ),
{
    let a = spec_anm_head(anm);
    let b = spec_clumps_bytes(anm.clumps)->Ok_0;
    let c = spec_u32s_bytes(anm.other_entry_chunk_indices);
    let d = spec_u32s_bytes(anm.unk_entry_chunk_indices);
    let e = spec_edges_bytes(anm.coord_parents);
    let f = spec_entries_bytes(anm.entries)->Ok_0;
    let bytes = spec_anm_bytes(anm)->Ok_0;
    let whole = bytes + tail;
    assert(a.len() == 20);
    assert(bytes == a + b + c + d + e + f);
    lemma_anm_lists_round_trip(anm, a, tail);
    assert(whole =~= a + b + c + d + e + f + tail);
    assert(whole.subrange(0, 20) =~= a);
    lemma_anm_head_at(whole, anm);
    reveal(spec_anm);
}

} // verus!
