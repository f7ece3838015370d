use vstd::prelude::*;

use crate::error::NuccError;
use crate::utils::be_i16;
use crate::utils::be_u16;
use crate::utils::be_u32;
use crate::utils::fits;
use crate::utils::i16_be;
use crate::utils::lemma_i16_at;
use crate::utils::lemma_u16_at;
use crate::utils::lemma_u32_at;
use crate::utils::read_i16;
use crate::utils::read_u16;
use crate::utils::read_u32;
use crate::utils::u16_be;
use crate::utils::u32_be;
use crate::utils::write_i16;
use crate::utils::write_u16;
use crate::utils::write_u32;

verus! {

/// The `n` big-endian `u32` stored from `at` on.
pub open spec fn spec_u32s(data: Seq<u8>, at: int, n: int) -> Seq<u32> {
    Seq::new(n as nat, |i: int| be_u32(data, at + 4 * i) as u32)
}

/// The bytes of a run of `u32`.
pub open spec fn spec_u32s_bytes(values: Seq<u32>) -> Seq<u8>
    decreases values.len(),
{
    if values.len() == 0 {
        seq![]
    } else {
        spec_u32s_bytes(values.drop_last()) + u32_be(values.last())
    }
}

/// Reads `n` big-endian `u32` from `at` on; `TruncatedInput` when they do
/// not all lie inside the data.
pub fn read_u32s(data: &Vec<u8>, at: usize, n: usize) -> (r: Result<Vec<u32>, NuccError>)
    requires
        n <= 0xffff_ffff,
    ensures
        fits(data@, at as int, 4 * n) ==> r is Ok && r->Ok_0@ == spec_u32s(
            data@,
            at as int,
            n as int,
        ),
        !fits(data@, at as int, 4 * n) ==> r == Err::<Vec<u32>, NuccError>(
            NuccError::TruncatedInput,
        ),
{
    if data.len() / 4 < n || at > data.len() - 4 * n {
        return Err(NuccError::TruncatedInput);
    }
    let mut out: Vec<u32> = Vec::new();
    let mut i: usize = 0;
    while i < n
        invariant
            i <= n,
            at + 4 * n <= data.len(),
            out@ == spec_u32s(data@, at as int, i as int),
        decreases n - i,
    {
        let v = match read_u32(data, at + 4 * i) {
            Ok(v) => v,
            Err(e) => { return Err(NuccError::TruncatedInput); },
        };
        out.push(v);
        i += 1;
        assert(out@ =~= spec_u32s(data@, at as int, i as int));
    }
    Ok(out)
}

/// Appends a run of `u32` in big-endian order.
pub fn write_u32s(out: &mut Vec<u8>, values: &Vec<u32>)
    ensures
        final(out)@ == old(out)@ + spec_u32s_bytes(values@),
{
    let mut i: usize = 0;
    while i < values.len()
        invariant
            i <= values.len(),
            out@ == old(out)@ + spec_u32s_bytes(values@.subrange(0, i as int)),
        decreases values.len() - i,
    {
        write_u32(out, values[i]);
        proof {
            let next = values@.subrange(0, i + 1);
            assert(next.drop_last() =~= values@.subrange(0, i as int));
            assert(out@ =~= old(out)@ + spec_u32s_bytes(next));
        }
        i += 1;
    }
    assert(values@.subrange(0, values.len() as int) =~= values@);
}

/// A run of `u32` takes four bytes for each, and is read back from its
/// bytes wherever they lie.
pub proof fn lemma_u32s_round_trip(values: Seq<u32>, front: Seq<u8>, tail: Seq<u8>)
    ensures
        spec_u32s_bytes(values).len() == 4 * values.len(),
        spec_u32s(
            front + spec_u32s_bytes(values) + tail,
            front.len() as int,
            values.len() as int,
        ) == values,
    decreases values.len(),
{
    let bytes = spec_u32s_bytes(values);
    let whole = front + bytes + tail;
    let n = values.len() as int;
    if n == 0 {
        assert(spec_u32s(whole, front.len() as int, 0) =~= values);
    } else {
        let before = values.drop_last();
        let last = u32_be(values.last());
        lemma_u32s_round_trip(before, front, last + tail);
        assert(whole =~= front + spec_u32s_bytes(before) + (last + tail));
        let at = front.len() + 4 * (n - 1);
        assert(whole.subrange(at, at + 4) =~= last);
        lemma_u32_at(whole, at, values.last());
        let got = spec_u32s(whole, front.len() as int, n);
        assert forall|i: int| 0 <= i < n implies got[i] == values[i] by {
            if i < n - 1 {
                assert(spec_u32s(whole, front.len() as int, n - 1)[i] == before[i]);
            }
        }
        assert(got =~= values);
    }
}

/// A group of animated objects as the file holds it: the index of its own
/// reference, then the indices of the references of its bones and
/// materials, and of its models.
#[derive(Debug, PartialEq, Eq)]
pub struct Clump {
    pub clump_index: u32,
    pub bone_material_indices: Vec<u32>,
    pub model_indices: Vec<u32>,
}

/// A wire `Clump` as plain values.
pub struct ClumpView {
    pub clump_index: u32,
    pub bone_material_indices: Seq<u32>,
    pub model_indices: Seq<u32>,
}

impl View for Clump {
    type V = ClumpView;

    open spec fn view(&self) -> ClumpView {
        ClumpView {
            clump_index: self.clump_index,
            bone_material_indices: self.bone_material_indices@,
            model_indices: self.model_indices@,
        }
    }
}

/// The clump stored at `at`, and the position behind it.
#[verifier::opaque]
pub open spec fn spec_clump(data: Seq<u8>, at: int) -> Result<(ClumpView, int), NuccError> {
    if !fits(data, at, 8) {
        Err(NuccError::TruncatedInput)
    } else {
        let bones = be_u16(data, at + 4);
        let models = be_u16(data, at + 6);
        if !fits(data, at + 8, 4 * bones + 4 * models) {
            Err(NuccError::TruncatedInput)
        } else {
            Ok(
                (
                    ClumpView {
                        clump_index: be_u32(data, at) as u32,
                        bone_material_indices: spec_u32s(data, at + 8, bones),
                        model_indices: spec_u32s(data, at + 8 + 4 * bones, models),
                    },
                    at + 8 + 4 * bones + 4 * models,
                ),
            )
        }
    }
}

/// `acc` put in front of what a parse of further items gave.
pub open spec fn prepend<T>(acc: Seq<T>, rest: Result<(Seq<T>, int), NuccError>) -> Result<
    (Seq<T>, int),
    NuccError,
> {
    match rest {
        Ok((items, end)) => Ok((acc + items, end)),
        Err(e) => Err(e),
    }
}

/// The `n` clumps stored one behind the other from `at` on, and the
/// position behind the last.
pub open spec fn spec_clumps(data: Seq<u8>, at: int, n: nat) -> Result<
    (Seq<ClumpView>, int),
    NuccError,
>
    decreases n,
{
    if n == 0 {
        Ok((seq![], at))
    } else {
        match spec_clump(data, at) {
            Err(e) => Err(e),
            Ok((clump, next)) => prepend(seq![clump], spec_clumps(data, next, (n - 1) as nat)),
        }
    }
}

/// The bytes of a clump; a clump with more than 65535 bones and materials,
/// or models, cannot be written.
pub open spec fn spec_clump_bytes(clump: ClumpView) -> Result<Seq<u8>, NuccError> {
    if clump.bone_material_indices.len() > u16::MAX || clump.model_indices.len() > u16::MAX {
        Err(NuccError::CountMismatch)
    } else {
        Ok(
            u32_be(clump.clump_index) + u16_be(clump.bone_material_indices.len() as u16) + u16_be(
                clump.model_indices.len() as u16,
            ) + spec_u32s_bytes(clump.bone_material_indices) + spec_u32s_bytes(
                clump.model_indices,
            ),
        )
    }
}

impl Clump {
    /// Reads the clump stored at `at`; gives it with the position behind
    /// it.
    pub fn read(data: &Vec<u8>, at: usize) -> (r: Result<(Clump, usize), NuccError>)
        ensures
            r matches Ok((c, next)) ==> spec_clump(data@, at as int) == Ok::<
                (ClumpView, int),
                NuccError,
            >((c@, next as int)),
            r matches Err(e) ==> spec_clump(data@, at as int) == Err::<
                (ClumpView, int),
                NuccError,
            >(e),
    {
        reveal(spec_clump);
        if data.len() < 8 || at > data.len() - 8 {
            return Err(NuccError::TruncatedInput);
        }
        let clump_index = match read_u32(data, at) {
            Ok(v) => v,
            Err(e) => { return Err(e); },
        };
        let bones = match read_u16(data, at + 4) {
            Ok(v) => v,
            Err(e) => { return Err(e); },
        };
        let models = match read_u16(data, at + 6) {
            Ok(v) => v,
            Err(e) => { return Err(e); },
        };
        let body: usize = 4 * (bones as usize) + 4 * (models as usize);
        if data.len() - (at + 8) < body {
            return Err(NuccError::TruncatedInput);
        }
        let bone_material_indices = match read_u32s(data, at + 8, bones as usize) {
            Ok(v) => v,
            Err(e) => { return Err(e); },
        };
        let model_indices = match read_u32s(data, at + 8 + 4 * (bones as usize), models as usize) {
            Ok(v) => v,
            Err(e) => { return Err(e); },
        };
        Ok((Clump { clump_index, bone_material_indices, model_indices }, at + 8 + body))
    }

    /// Reads `n` clumps stored one behind the other from `at` on; gives
    /// them with the position behind the last.
    pub fn read_all(data: &Vec<u8>, at: usize, n: u16) -> (r: Result<(Vec<Clump>, usize), NuccError>)
        ensures
            r matches Ok((v, end)) ==> spec_clumps(data@, at as int, n as nat) == Ok::<
                (Seq<ClumpView>, int),
                NuccError,
            >((crate::nucc::views(v@), end as int)),
            r matches Err(e) ==> spec_clumps(data@, at as int, n as nat) == Err::<
                (Seq<ClumpView>, int),
                NuccError,
            >(e),
    {
        let mut clumps: Vec<Clump> = Vec::new();
        let mut cur: usize = at;
        let mut k: u16 = 0;
        assert(crate::nucc::views(clumps@) =~= seq![]);
        assert(prepend(seq![], spec_clumps(data@, at as int, n as nat)) == spec_clumps(
            data@,
            at as int,
            n as nat,
        )) by {
            match spec_clumps(data@, at as int, n as nat) {
                Ok((items, end)) => {
                    assert(Seq::<ClumpView>::empty() + items =~= items);
                },
                Err(e) => {},
            }
        }
        while k < n
            invariant
                k <= n,
                spec_clumps(data@, at as int, n as nat) == prepend(
                    crate::nucc::views(clumps@),
                    spec_clumps(data@, cur as int, (n - k) as nat),
                ),
            decreases n - k,
        {
            let ghost before = crate::nucc::views(clumps@);
            match Clump::read(data, cur) {
                Err(e) => { return Err(e); },
                Ok((clump, next)) => {
                    proof {
                        let rest = spec_clumps(data@, next as int, (n - k - 1) as nat);
                        match rest {
                            Ok((items, end)) => {
                                assert(before + (seq![clump@] + items) =~= before.push(clump@)
                                    + items);
                            },
                            Err(e) => {},
                        }
                    }
                    clumps.push(clump);
                    assert(crate::nucc::views(clumps@) =~= before.push(clump@));
                    cur = next;
                    k += 1;
                },
            }
        }
        proof {
            assert(crate::nucc::views(clumps@) + Seq::<ClumpView>::empty() =~= crate::nucc::views(
                clumps@,
            ));
        }
        Ok((clumps, cur))
    }

    /// Appends the bytes of this clump.
    pub fn write(&self, out: &mut Vec<u8>) -> (r: Result<(), NuccError>)
        ensures
            r is Ok ==> spec_clump_bytes(self@) is Ok && final(out)@ == old(out)@
                + spec_clump_bytes(self@)->Ok_0,
            r matches Err(e) ==> spec_clump_bytes(self@) == Err::<Seq<u8>, NuccError>(e),
    {
        if self.bone_material_indices.len() > 0xffff || self.model_indices.len() > 0xffff {
            return Err(NuccError::CountMismatch);
        }
        write_u32(out, self.clump_index);
        write_u16(out, self.bone_material_indices.len() as u16);
        write_u16(out, self.model_indices.len() as u16);
        write_u32s(out, &self.bone_material_indices);
        write_u32s(out, &self.model_indices);
        assert(out@ =~= old(out)@ + spec_clump_bytes(self@)->Ok_0);
        Ok(())
    }
}

/// The place of an entry: the position of its clump in the chunk, or -1 for
/// an entry outside every clump, and its slot there.
#[derive(Debug, Default, Copy, Clone, PartialEq, Eq, Hash, Structural)]
pub struct ClumpCoordIndex(pub i16, pub u16);

/// An edge of the entry forest: a parent and one of its children.
#[derive(Debug, Default, Copy, Clone, PartialEq, Eq, Hash, Structural)]
pub struct ParentChildIndex(pub ClumpCoordIndex, pub ClumpCoordIndex);

/// The coordinate stored at `at`.
pub open spec fn spec_coord_at(data: Seq<u8>, at: int) -> ClumpCoordIndex {
    ClumpCoordIndex(be_i16(data, at) as i16, be_u16(data, at + 2) as u16)
}

/// The `n` edges stored from `at` on.
pub open spec fn spec_edges(data: Seq<u8>, at: int, n: int) -> Seq<ParentChildIndex> {
    Seq::new(
        n as nat,
        |i: int|
            ParentChildIndex(spec_coord_at(data, at + 8 * i), spec_coord_at(data, at + 8 * i + 4)),
    )
}

/// The bytes of a coordinate.
pub open spec fn spec_coord_bytes(coord: ClumpCoordIndex) -> Seq<u8> {
    i16_be(coord.0) + u16_be(coord.1)
}

/// The bytes of a run of edges.
pub open spec fn spec_edges_bytes(edges: Seq<ParentChildIndex>) -> Seq<u8>
    decreases edges.len(),
{
    if edges.len() == 0 {
        seq![]
    } else {
        spec_edges_bytes(edges.drop_last()) + spec_coord_bytes(edges.last().0) + spec_coord_bytes(
            edges.last().1,
        )
    }
}

impl ClumpCoordIndex {
    /// Reads the coordinate stored at `at`.
    pub fn read(data: &Vec<u8>, at: usize) -> (r: Result<ClumpCoordIndex, NuccError>)
        ensures
            fits(data@, at as int, 4) ==> r == Ok::<ClumpCoordIndex, NuccError>(
                spec_coord_at(data@, at as int),
            ),
            !fits(data@, at as int, 4) ==> r == Err::<ClumpCoordIndex, NuccError>(
                NuccError::TruncatedInput,
            ),
    {
        if data.len() < 4 || at > data.len() - 4 {
            return Err(NuccError::TruncatedInput);
        }
        let clump = match read_i16(data, at) {
            Ok(v) => v,
            Err(e) => { return Err(e); },
        };
        let slot = match read_u16(data, at + 2) {
            Ok(v) => v,
            Err(e) => { return Err(e); },
        };
        Ok(ClumpCoordIndex(clump, slot))
    }

    /// Appends the bytes of this coordinate.
    pub fn write(&self, out: &mut Vec<u8>)
        ensures
            final(out)@ == old(out)@ + spec_coord_bytes(*self),
    {
        write_i16(out, self.0);
        write_u16(out, self.1);
        assert(out@ =~= old(out)@ + spec_coord_bytes(*self));
    }
}

impl ParentChildIndex {
    /// Reads `n` edges from `at` on; `TruncatedInput` when they do not all
    /// lie inside the data.
    pub fn read_all(data: &Vec<u8>, at: usize, n: u16) -> (r: Result<
        Vec<ParentChildIndex>,
        NuccError,
    >)
        ensures
            fits(data@, at as int, 8 * n) ==> r is Ok && r->Ok_0@ == spec_edges(
                data@,
                at as int,
                n as int,
            ),
            !fits(data@, at as int, 8 * n) ==> r == Err::<Vec<ParentChildIndex>, NuccError>(
                NuccError::TruncatedInput,
            ),
    {
        let total: usize = 8 * (n as usize);
        if data.len() < total || at > data.len() - total {
            return Err(NuccError::TruncatedInput);
        }
        let mut out: Vec<ParentChildIndex> = Vec::new();
        let mut i: usize = 0;
        while i < n as usize
            invariant
                i <= n,
                at + 8 * n <= data.len(),
                out@ == spec_edges(data@, at as int, i as int),
            decreases n - i,
        {
            let parent = match ClumpCoordIndex::read(data, at + 8 * i) {
                Ok(v) => v,
                Err(e) => { return Err(NuccError::TruncatedInput); },
            };
            let child = match ClumpCoordIndex::read(data, at + 8 * i + 4) {
                Ok(v) => v,
                Err(e) => { return Err(NuccError::TruncatedInput); },
            };
            out.push(ParentChildIndex(parent, child));
            i += 1;
            assert(out@ =~= spec_edges(data@, at as int, i as int));
        }
        Ok(out)
    }

    /// Appends a run of edges.
    pub fn write_all(out: &mut Vec<u8>, edges: &Vec<ParentChildIndex>)
        ensures
            final(out)@ == old(out)@ + spec_edges_bytes(edges@),
    {
        let mut i: usize = 0;
        while i < edges.len()
            invariant
                i <= edges.len(),
                out@ == old(out)@ + spec_edges_bytes(edges@.subrange(0, i as int)),
            decreases edges.len() - i,
        {
            let edge = edges[i];
            edge.0.write(out);
            edge.1.write(out);
            proof {
                let next = edges@.subrange(0, i + 1);
                assert(next.drop_last() =~= edges@.subrange(0, i as int));
                assert(out@ =~= old(out)@ + spec_edges_bytes(next));
            }
            i += 1;
        }
        assert(edges@.subrange(0, edges.len() as int) =~= edges@);
    }
}

/// A clump is read back from its bytes wherever they lie, and the reading
/// ends where the bytes end.
pub proof fn lemma_clump_round_trip(clump: ClumpView, front: Seq<u8>, tail: Seq<u8>)
    requires
        spec_clump_bytes(clump) is Ok,
    ensures
        spec_clump_bytes(clump)->Ok_0.len() == 8 + 4 * clump.bone_material_indices.len() + 4
            * clump.model_indices.len(),
        spec_clump(front + spec_clump_bytes(clump)->Ok_0 + tail, front.len() as int) == Ok::<
            (ClumpView, int),
            NuccError,
        >((clump, (front.len() + spec_clump_bytes(clump)->Ok_0.len()) as int)),
{
    reveal(spec_clump);
    let a = u32_be(clump.clump_index);
    let b = u16_be(clump.bone_material_indices.len() as u16);
    let c = u16_be(clump.model_indices.len() as u16);
    let d = spec_u32s_bytes(clump.bone_material_indices);
    let e = spec_u32s_bytes(clump.model_indices);
    let bytes = spec_clump_bytes(clump)->Ok_0;
    let whole = front + bytes + tail;
    let at = front.len() as int;
    let head = front + a + b + c;
    lemma_u32s_round_trip(clump.bone_material_indices, head, e + tail);
    lemma_u32s_round_trip(clump.model_indices, head + d, tail);
    assert(bytes == a + b + c + d + e);
    assert(whole =~= head + d + (e + tail));
    assert(whole =~= (head + d) + e + tail);
    assert(whole.subrange(at, at + 4) =~= a);
    assert(whole.subrange(at + 4, at + 6) =~= b);
    assert(whole.subrange(at + 6, at + 8) =~= c);
    lemma_u32_at(whole, at, clump.clump_index);
    lemma_u16_at(whole, at + 4, clump.bone_material_indices.len() as u16);
    lemma_u16_at(whole, at + 6, clump.model_indices.len() as u16);
}

/// The bytes of a run of clumps with one more clump in front are the bytes
/// of that clump and then those of the run.
pub proof fn lemma_clumps_bytes_front(first: ClumpView, rest: Seq<ClumpView>)
    ensures
        crate::nucc_chunk::nucc_chunk_anm::spec_clumps_bytes(seq![first] + rest) == (match spec_clump_bytes(
            first,
        ) {
            Err(e) => Err::<Seq<u8>, NuccError>(e),
            Ok(head) => match crate::nucc_chunk::nucc_chunk_anm::spec_clumps_bytes(rest) {
                Err(e) => Err(e),
                Ok(tail) => Ok(head + tail),
            },
        }),
    decreases rest.len(),
{
    let all = seq![first] + rest;
    let empty = Seq::<ClumpView>::empty();
    assert(crate::nucc_chunk::nucc_chunk_anm::spec_clumps_bytes(empty) == Ok::<Seq<u8>, NuccError>(
        Seq::<u8>::empty(),
    ));
    if rest.len() == 0 {
        assert(rest =~= empty);
        assert(all.drop_last() =~= empty);
        assert(all.last() == first);
        if spec_clump_bytes(first) is Ok {
            let head = spec_clump_bytes(first)->Ok_0;
            assert(Seq::<u8>::empty() + head =~= head + Seq::<u8>::empty());
        }
    } else {
        let shorter = rest.drop_last();
        lemma_clumps_bytes_front(first, shorter);
        assert(all.drop_last() =~= seq![first] + shorter);
        assert(all.last() == rest.last());
        if spec_clump_bytes(first) is Ok
            && crate::nucc_chunk::nucc_chunk_anm::spec_clumps_bytes(shorter) is Ok
            && spec_clump_bytes(rest.last()) is Ok {
            let head = spec_clump_bytes(first)->Ok_0;
            let middle = crate::nucc_chunk::nucc_chunk_anm::spec_clumps_bytes(shorter)->Ok_0;
            let back = spec_clump_bytes(rest.last())->Ok_0;
            assert((head + middle) + back =~= head + (middle + back));
        }
    }
}

/// A run of clumps is read back from its bytes wherever they lie, and the
/// reading ends where the bytes end.
pub proof fn lemma_clumps_round_trip(clumps: Seq<ClumpView>, front: Seq<u8>, tail: Seq<u8>)
    requires
        crate::nucc_chunk::nucc_chunk_anm::spec_clumps_bytes(clumps) is Ok,
    ensures
        spec_clumps(
            front + crate::nucc_chunk::nucc_chunk_anm::spec_clumps_bytes(clumps)->Ok_0 + tail,
            front.len() as int,
            clumps.len(),
        ) == Ok::<(Seq<ClumpView>, int), NuccError>(
            (
                clumps,
                (front.len() + crate::nucc_chunk::nucc_chunk_anm::spec_clumps_bytes(
                    clumps,
                )->Ok_0.len()) as int,
            ),
        ),
    decreases clumps.len(),
{
    let bytes = crate::nucc_chunk::nucc_chunk_anm::spec_clumps_bytes(clumps)->Ok_0;
    let whole = front + bytes + tail;
    if clumps.len() == 0 {
        assert(clumps =~= Seq::<ClumpView>::empty());
    } else {
        let first = clumps[0];
        let rest = clumps.subrange(1, clumps.len() as int);
        assert(clumps =~= seq![first] + rest);
        lemma_clumps_bytes_front(first, rest);
        let head = spec_clump_bytes(first)->Ok_0;
        let back = crate::nucc_chunk::nucc_chunk_anm::spec_clumps_bytes(rest)->Ok_0;
        assert(bytes == head + back);
        let at = front.len() as int;
        let next = at + head.len();
        lemma_clump_round_trip(first, front, back + tail);
        assert(whole =~= front + head + (back + tail));
        assert(spec_clump(whole, at) == Ok::<(ClumpView, int), NuccError>((first, next)));
        lemma_clumps_round_trip(rest, front + head, tail);
        assert(whole =~= (front + head) + back + tail);
        let end = next + back.len();
        assert(spec_clumps(whole, next, rest.len()) == Ok::<(Seq<ClumpView>, int), NuccError>(
            (rest, end),
        ));
        assert(spec_clumps(whole, at, clumps.len()) == prepend(
            seq![first],
            spec_clumps(whole, next, (clumps.len() - 1) as nat),
        ));
    }
}

/// The eight bytes of the `i`-th edge of a run lie at eight times `i` in
/// the bytes of the run.
pub proof fn lemma_edges_bytes_at(edges: Seq<ParentChildIndex>, i: int)
    requires
        0 <= i < edges.len(),
    ensures
        spec_edges_bytes(edges).len() == 8 * edges.len(),
        spec_edges_bytes(edges).subrange(8 * i, 8 * i + 8) == spec_coord_bytes(edges[i].0)
            + spec_coord_bytes(edges[i].1),
    decreases edges.len(),
{
    let before = edges.drop_last();
    lemma_edges_bytes_len(before);
    lemma_edges_bytes_len(edges);
    let bytes = spec_edges_bytes(edges);
    let last = spec_coord_bytes(edges.last().0) + spec_coord_bytes(edges.last().1);
    assert(bytes =~= spec_edges_bytes(before) + last);
    if i == edges.len() - 1 {
        assert(bytes.subrange(8 * i, 8 * i + 8) =~= last);
    } else {
        lemma_edges_bytes_at(before, i);
        assert(before[i] == edges[i]);
        assert(bytes.subrange(8 * i, 8 * i + 8) =~= spec_edges_bytes(before).subrange(
            8 * i,
            8 * i + 8,
        ));
    }
}

/// A run of edges takes eight bytes for each.
pub proof fn lemma_edges_bytes_len(edges: Seq<ParentChildIndex>)
    ensures
        spec_edges_bytes(edges).len() == 8 * edges.len(),
    decreases edges.len(),
{
    if edges.len() > 0 {
        lemma_edges_bytes_len(edges.drop_last());
    }
}

/// Where the four bytes at a place are those of a place of an entry, that
/// place is read there.
pub proof fn lemma_coord_at(whole: Seq<u8>, at: int, coord: ClumpCoordIndex)
    requires
        fits(whole, at, 4),
        whole.subrange(at, at + 4) == spec_coord_bytes(coord),
    ensures
        spec_coord_at(whole, at) == coord,
{
    let part = whole.subrange(at, at + 4);
    assert(whole.subrange(at, at + 2) =~= part.subrange(0, 2));
    assert(whole.subrange(at + 2, at + 4) =~= part.subrange(2, 4));
    assert(part.subrange(0, 2) =~= i16_be(coord.0));
    assert(part.subrange(2, 4) =~= u16_be(coord.1));
    lemma_i16_at(whole, at, coord.0);
    lemma_u16_at(whole, at + 2, coord.1);
}

/// A run of edges is read back from its bytes wherever they lie.
pub proof fn lemma_edges_round_trip(edges: Seq<ParentChildIndex>, front: Seq<u8>, tail: Seq<u8>)
    ensures
        spec_edges_bytes(edges).len() == 8 * edges.len(),
        spec_edges(front + spec_edges_bytes(edges) + tail, front.len() as int, edges.len() as int)
            == edges,
{
    let bytes = spec_edges_bytes(edges);
    let whole = front + bytes + tail;
    let n = edges.len() as int;
    lemma_edges_bytes_len(edges);
    let got = spec_edges(whole, front.len() as int, n);
    assert forall|i: int| 0 <= i < n implies got[i] == edges[i] by {
        lemma_edges_bytes_at(edges, i);
        let at = front.len() + 8 * i;
        let both = bytes.subrange(8 * i, 8 * i + 8);
        assert(whole.subrange(at, at + 4) =~= both.subrange(0, 4));
        assert(whole.subrange(at + 4, at + 8) =~= both.subrange(4, 8));
        assert(both.subrange(0, 4) =~= spec_coord_bytes(edges[i].0));
        assert(both.subrange(4, 8) =~= spec_coord_bytes(edges[i].1));
        lemma_coord_at(whole, at, edges[i].0);
        lemma_coord_at(whole, at + 4, edges[i].1);
    }
    assert(got =~= edges);
}

} // verus!
