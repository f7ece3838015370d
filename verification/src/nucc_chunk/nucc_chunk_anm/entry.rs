use vstd::prelude::*;

use crate::error::NuccError;
use crate::nucc::views;
use crate::nucc_chunk::nucc_chunk_anm::clump::lemma_coord_at;
use crate::nucc_chunk::nucc_chunk_anm::clump::prepend;
use crate::nucc_chunk::nucc_chunk_anm::clump::spec_coord_at;
use crate::nucc_chunk::nucc_chunk_anm::clump::spec_coord_bytes;
use crate::nucc_chunk::nucc_chunk_anm::clump::ClumpCoordIndex;
use crate::nucc_chunk::nucc_chunk_anm::curve::lemma_format_tag_round_trip;
use crate::nucc_chunk::nucc_chunk_anm::curve::spec_curve_len;
use crate::nucc_chunk::nucc_chunk_anm::curve::spec_format_of_tag;
use crate::nucc_chunk::nucc_chunk_anm::curve::spec_format_tag;
use crate::nucc_chunk::nucc_chunk_anm::curve::spec_header_at;
use crate::nucc_chunk::nucc_chunk_anm::curve::spec_header_bytes;
use crate::nucc_chunk::nucc_chunk_anm::curve::spec_headers;
use crate::nucc_chunk::nucc_chunk_anm::curve::Curve;
use crate::nucc_chunk::nucc_chunk_anm::curve::CurveHeader;
use crate::utils::be_u16;
use crate::utils::fits;
use crate::utils::lemma_u16_at;
use crate::utils::read_bytes;
use crate::utils::read_u16;
use crate::utils::u16_be;
use crate::utils::write_bytes;
use crate::utils::write_u16;

verus! {

/// What kind of object an entry animates.
#[derive(Debug, Clone, Copy, PartialEq, Eq, Structural)]
pub enum EntryFormat {
    Coord,
    Camera,
    Material,
    LightDirc,
    LightPoint,
    Ambient,
}

/// The code under which each entry format is stored.
pub open spec fn spec_entry_format_tag(format: EntryFormat) -> u16 {
    match format {
        EntryFormat::Coord => 1,
        EntryFormat::Camera => 2,
        EntryFormat::Material => 4,
        EntryFormat::LightDirc => 5,
        EntryFormat::LightPoint => 6,
        EntryFormat::Ambient => 8,
    }
}

/// The entry format that a code stands for, if any.
pub open spec fn spec_entry_format_of_tag(tag: int) -> Option<EntryFormat> {
    if tag == 1 {
        Some(EntryFormat::Coord)
    } else if tag == 2 {
        Some(EntryFormat::Camera)
    } else if tag == 4 {
        Some(EntryFormat::Material)
    } else if tag == 5 {
        Some(EntryFormat::LightDirc)
    } else if tag == 6 {
        Some(EntryFormat::LightPoint)
    } else if tag == 8 {
        Some(EntryFormat::Ambient)
    } else {
        None
    }
}

impl EntryFormat {
    /// The code under which this entry format is stored.
    pub fn tag(&self) -> (r: u16)
        ensures
            r == spec_entry_format_tag(*self),
    {
        match self {
            EntryFormat::Coord => 1,
            EntryFormat::Camera => 2,
            EntryFormat::Material => 4,
            EntryFormat::LightDirc => 5,
            EntryFormat::LightPoint => 6,
            EntryFormat::Ambient => 8,
        }
    }

    /// The entry format that a code stands for; `UnsupportedFeature` for a
    /// code that stands for none.
    pub fn from_tag(tag: u16) -> (r: Result<EntryFormat, NuccError>)
        ensures
            r == (match spec_entry_format_of_tag(tag as int) {
                Some(f) => Ok::<EntryFormat, NuccError>(f),
                None => Err(NuccError::UnsupportedFeature),
            }),
    {
        match tag {
            1 => Ok(EntryFormat::Coord),
            2 => Ok(EntryFormat::Camera),
            4 => Ok(EntryFormat::Material),
            5 => Ok(EntryFormat::LightDirc),
            6 => Ok(EntryFormat::LightPoint),
            8 => Ok(EntryFormat::Ambient),
            _ => Err(NuccError::UnsupportedFeature),
        }
    }
}

/// The code of an entry format selects that format.
pub proof fn lemma_entry_format_tag_round_trip(format: EntryFormat)
    ensures
        spec_entry_format_of_tag(spec_entry_format_tag(format) as int) == Some(format),
{
}

/// One animated object as the file holds it: its place, its kind, and its
/// curves, each with a header.
#[derive(Debug, PartialEq, Eq)]
pub struct Entry {
    pub coord_index: ClumpCoordIndex,
    pub entry_format: EntryFormat,
    pub curve_headers: Vec<CurveHeader>,
    pub curves: Vec<Curve>,
}

/// A wire `Entry` as plain values.
pub struct EntryView {
    pub coord_index: ClumpCoordIndex,
    pub entry_format: EntryFormat,
    pub curve_headers: Seq<CurveHeader>,
    pub curves: Seq<Seq<u8>>,
}

impl View for Entry {
    type V = EntryView;

    open spec fn view(&self) -> EntryView {
        EntryView {
            coord_index: self.coord_index,
            entry_format: self.entry_format,
            curve_headers: self.curve_headers@,
            curves: views(self.curves@),
        }
    }
}

/// The byte runs of the curves that `headers` announce from the `k`-th on,
/// stored one behind the other from `at` on, and the position behind the
/// last. The length of each run follows from its header.
pub open spec fn spec_curves(data: Seq<u8>, at: int, headers: Seq<CurveHeader>, k: int) -> Result<
    (Seq<Seq<u8>>, int),
    NuccError,
>
    decreases headers.len() - k,
{
    if k < 0 || k >= headers.len() {
        Ok((seq![], at))
    } else {
        match spec_curve_len(headers[k].curve_format, headers[k].frame_count as int) {
            None => Err(NuccError::UnimplementedCurveFormat),
            Some(len) => {
                if !fits(data, at, len) {
                    Err(NuccError::TruncatedInput)
                } else {
                    prepend(
                        seq![data.subrange(at, at + len)],
                        spec_curves(data, at + len, headers, k + 1),
                    )
                }
            },
        }
    }
}

/// The entry stored at `at`, and the position behind it.
#[verifier::opaque]
pub open spec fn spec_entry(data: Seq<u8>, at: int) -> Result<(EntryView, int), NuccError> {
    if !fits(data, at, 8) {
        Err(NuccError::TruncatedInput)
    } else {
        match spec_entry_format_of_tag(be_u16(data, at + 4)) {
            None => Err(NuccError::UnsupportedFeature),
            Some(entry_format) => {
                let count = be_u16(data, at + 6);
                match spec_headers(data, at + 8, count) {
                    Err(e) => Err(e),
                    Ok(curve_headers) => match spec_curves(
                        data,
                        at + 8 + 8 * count,
                        curve_headers,
                        0,
                    ) {
                        Err(e) => Err(e),
                        Ok((curves, end)) => Ok(
                            (
                                EntryView {
                                    coord_index: spec_coord_at(data, at),
                                    entry_format,
                                    curve_headers,
                                    curves,
                                },
                                end,
                            ),
                        ),
                    },
                }
            },
        }
    }
}

/// The `n` entries stored one behind the other from `at` on, and the
/// position behind the last.
pub open spec fn spec_entries(data: Seq<u8>, at: int, n: nat) -> Result<
    (Seq<EntryView>, int),
    NuccError,
>
    decreases n,
{
    if n == 0 {
        Ok((seq![], at))
    } else {
        match spec_entry(data, at) {
            Err(e) => Err(e),
            Ok((entry, next)) => prepend(seq![entry], spec_entries(data, next, (n - 1) as nat)),
        }
    }
}

/// The bytes of a run of curve headers.
pub open spec fn spec_headers_bytes(headers: Seq<CurveHeader>) -> Seq<u8>
    decreases headers.len(),
{
    if headers.len() == 0 {
        seq![]
    } else {
        spec_headers_bytes(headers.drop_last()) + spec_header_bytes(headers.last())
    }
}

/// Byte runs one behind the other.
pub open spec fn spec_concat(runs: Seq<Seq<u8>>) -> Seq<u8>
    decreases runs.len(),
{
    if runs.len() == 0 {
        seq![]
    } else {
        spec_concat(runs.drop_last()) + runs.last()
    }
}

/// The bytes that open an entry: its place, the code of its kind, and the
/// number of its curves.
pub open spec fn spec_entry_opening(entry: EntryView) -> Seq<u8> {
    spec_coord_bytes(entry.coord_index) + u16_be(spec_entry_format_tag(entry.entry_format))
        + u16_be(entry.curve_headers.len() as u16)
}

/// The bytes of an entry. An entry with more than 65535 curves, or with
/// another number of headers than of curves, cannot be written.
pub open spec fn spec_entry_bytes(entry: EntryView) -> Result<Seq<u8>, NuccError> {
    if entry.curve_headers.len() > u16::MAX || entry.curves.len() != entry.curve_headers.len() {
        Err(NuccError::CountMismatch)
    } else {
        Ok(
            spec_entry_opening(entry) + spec_headers_bytes(entry.curve_headers) + spec_concat(
                entry.curves,
            ),
        )
    }
}

/// The bytes that the curves announced by `headers` take from the `k`-th
/// on, where every format has a codec.
pub open spec fn spec_curves_len(headers: Seq<CurveHeader>, k: int) -> int
    decreases headers.len() - k,
{
    if k < 0 || k >= headers.len() {
        0
    } else {
        spec_curve_len(headers[k].curve_format, headers[k].frame_count as int).unwrap_or(0)
            + spec_curves_len(headers, k + 1)
    }
}

/// A parsed entry has one curve for each of its headers, and each curve
/// takes the bytes of its keyframes, rounded up to a multiple of four.
pub proof fn lemma_curves_len(data: Seq<u8>, at: int, headers: Seq<CurveHeader>, k: int)
    requires
        0 <= k <= headers.len(),
        spec_curves(data, at, headers, k) is Ok,
    ensures
        spec_curves(data, at, headers, k)->Ok_0.0.len() == headers.len() - k,
        forall|i: int|
            0 <= i < headers.len() - k ==> spec_curve_len(
                headers[k + i].curve_format,
                headers[k + i].frame_count as int,
            ) == Some((#[trigger] spec_curves(data, at, headers, k)->Ok_0.0[i]).len() as int),
        spec_curves(data, at, headers, k)->Ok_0.1 == at + spec_curves_len(headers, k),
    decreases headers.len() - k,
{
    if k < headers.len() {
        let len = spec_curve_len(headers[k].curve_format, headers[k].frame_count as int).unwrap();
        lemma_curves_len(data, at + len, headers, k + 1);
        let rest = spec_curves(data, at + len, headers, k + 1)->Ok_0.0;
        let all = spec_curves(data, at, headers, k)->Ok_0.0;
        assert(all =~= seq![data.subrange(at, at + len)] + rest);
        assert forall|i: int| 0 <= i < headers.len() - k implies spec_curve_len(
            headers[k + i].curve_format,
            headers[k + i].frame_count as int,
        ) == Some((#[trigger] all[i]).len() as int) by {
            if i > 0 {
                assert(all[i] == rest[i - 1]);
            }
        }
    }
}

impl Entry {
    /// Reads the byte runs of the curves that `curve_headers` announce,
    /// stored one behind the other from `at` on; gives them with the
    /// position behind the last.
    pub fn read_curves(data: &Vec<u8>, at: usize, curve_headers: &Vec<CurveHeader>) -> (r: Result<
        (Vec<Curve>, usize),
        NuccError,
    >)
        ensures
            r matches Ok((v, end)) ==> spec_curves(data@, at as int, curve_headers@, 0) == Ok::<
                (Seq<Seq<u8>>, int),
                NuccError,
            >((views(v@), end as int)),
            r matches Err(e) ==> spec_curves(data@, at as int, curve_headers@, 0) == Err::<
                (Seq<Seq<u8>>, int),
                NuccError,
            >(e),
    {
        let mut curves: Vec<Curve> = Vec::new();
        let mut cur: usize = at;
        let mut k: usize = 0;
        proof {
            assert(views(curves@) =~= seq![]);
            match spec_curves(data@, at as int, curve_headers@, 0) {
                Ok((items, end)) => {
                    assert(Seq::<Seq<u8>>::empty() + items =~= items);
                },
                Err(e) => {},
            }
        }
        while k < curve_headers.len()
            invariant
                k <= curve_headers.len(),
                spec_curves(data@, at as int, curve_headers@, 0) == prepend(
                    views(curves@),
                    spec_curves(data@, cur as int, curve_headers@, k as int),
                ),
            decreases curve_headers.len() - k,
        {
            let ghost before = views(curves@);
            let header = curve_headers[k];
            let len = match header.curve_format.curve_len(header.frame_count) {
                Ok(n) => n,
                Err(e) => { return Err(e); },
            };
            if data.len() < len || cur > data.len() - len {
                return Err(NuccError::TruncatedInput);
            }
            let bytes = match read_bytes(data, cur, len) {
                Ok(b) => b,
                Err(e) => { return Err(e); },
            };
            proof {
                let rest = spec_curves(data@, cur + len, curve_headers@, k + 1);
                match rest {
                    Ok((items, end)) => {
                        assert(before + (seq![bytes@] + items) =~= before.push(bytes@) + items);
                    },
                    Err(e) => {},
                }
            }
            curves.push(Curve { data: bytes });
            assert(views(curves@) =~= before.push(bytes@));
            cur = cur + len;
            k += 1;
        }
        proof {
            assert(views(curves@) + Seq::<Seq<u8>>::empty() =~= views(curves@));
        }
        Ok((curves, cur))
    }

    /// Reads the entry stored at `at`; gives it with the position behind
    /// it.
    pub fn read(data: &Vec<u8>, at: usize) -> (r: Result<(Entry, usize), NuccError>)
        ensures
            r matches Ok((entry, next)) ==> spec_entry(data@, at as int) == Ok::<
                (EntryView, int),
                NuccError,
            >((entry@, next as int)),
            r matches Err(e) ==> spec_entry(data@, at as int) == Err::<
                (EntryView, int),
                NuccError,
            >(e),
    {
        reveal(spec_entry);
        if data.len() < 8 || at > data.len() - 8 {
            return Err(NuccError::TruncatedInput);
        }
        let coord_index = match ClumpCoordIndex::read(data, at) {
            Ok(v) => v,
            Err(e) => { return Err(e); },
        };
        let tag = match read_u16(data, at + 4) {
            Ok(v) => v,
            Err(e) => { return Err(e); },
        };
        let entry_format = match EntryFormat::from_tag(tag) {
            Ok(v) => v,
            Err(e) => { return Err(e); },
        };
        let count = match read_u16(data, at + 6) {
            Ok(v) => v,
            Err(e) => { return Err(e); },
        };
        let curve_headers = match CurveHeader::read_all(data, at + 8, count) {
            Ok(v) => v,
            Err(e) => { return Err(e); },
        };
        let (curves, end) = match Entry::read_curves(
            data,
            at + 8 + 8 * (count as usize),
            &curve_headers,
        ) {
            Ok(v) => v,
            Err(e) => { return Err(e); },
        };
        Ok((Entry { coord_index, entry_format, curve_headers, curves }, end))
    }

    /// Reads `n` entries stored one behind the other from `at` on; gives
    /// them with the position behind the last.
    pub fn read_all(data: &Vec<u8>, at: usize, n: u16) -> (r: Result<(Vec<Entry>, usize), NuccError>)
        ensures
            r matches Ok((v, end)) ==> spec_entries(data@, at as int, n as nat) == Ok::<
                (Seq<EntryView>, int),
                NuccError,
            >((views(v@), end as int)),
            r matches Err(e) ==> spec_entries(data@, at as int, n as nat) == Err::<
                (Seq<EntryView>, int),
                NuccError,
            >(e),
    {
        let mut entries: Vec<Entry> = Vec::new();
        let mut cur: usize = at;
        let mut k: u16 = 0;
        proof {
            assert(views(entries@) =~= seq![]);
            match spec_entries(data@, at as int, n as nat) {
                Ok((items, end)) => {
                    assert(Seq::<EntryView>::empty() + items =~= items);
                },
                Err(e) => {},
            }
        }
        while k < n
            invariant
                k <= n,
                spec_entries(data@, at as int, n as nat) == prepend(
                    views(entries@),
                    spec_entries(data@, cur as int, (n - k) as nat),
                ),
            decreases n - k,
        {
            let ghost before = views(entries@);
            match Entry::read(data, cur) {
                Err(e) => { return Err(e); },
                Ok((entry, next)) => {
                    proof {
                        let rest = spec_entries(data@, next as int, (n - k - 1) as nat);
                        match rest {
                            Ok((items, end)) => {
                                assert(before + (seq![entry@] + items) =~= before.push(entry@)
                                    + items);
                            },
                            Err(e) => {},
                        }
                    }
                    entries.push(entry);
                    assert(views(entries@) =~= before.push(entry@));
                    cur = next;
                    k += 1;
                },
            }
        }
        proof {
            assert(views(entries@) + Seq::<EntryView>::empty() =~= views(entries@));
        }
        Ok((entries, cur))
    }

    /// Appends the bytes of this entry.
    pub fn write(&self, out: &mut Vec<u8>) -> (r: Result<(), NuccError>)
        ensures
            r is Ok ==> spec_entry_bytes(self@) is Ok && final(out)@ == old(out)@
                + spec_entry_bytes(self@)->Ok_0,
            r matches Err(e) ==> spec_entry_bytes(self@) == Err::<Seq<u8>, NuccError>(e),
    {
        if self.curve_headers.len() > 0xffff || self.curves.len() != self.curve_headers.len() {
            return Err(NuccError::CountMismatch);
        }
        self.coord_index.write(out);
        write_u16(out, self.entry_format.tag());
        write_u16(out, self.curve_headers.len() as u16);
        let ghost start = out@;
        assert(start =~= old(out)@ + spec_entry_opening(self@));
        let mut i: usize = 0;
        while i < self.curve_headers.len()
            invariant
                i <= self.curve_headers.len(),
                out@ == start + spec_headers_bytes(self.curve_headers@.subrange(0, i as int)),
            decreases self.curve_headers.len() - i,
        {
            let header = self.curve_headers[i];
            header.write(out);
            proof {
                let next = self.curve_headers@.subrange(0, i + 1);
                assert(next.drop_last() =~= self.curve_headers@.subrange(0, i as int));
                assert(out@ =~= start + spec_headers_bytes(next));
            }
            i += 1;
        }
        assert(self.curve_headers@.subrange(0, self.curve_headers.len() as int)
            =~= self.curve_headers@);
        let ghost middle = out@;
        let mut j: usize = 0;
        while j < self.curves.len()
            invariant
                j <= self.curves.len(),
                out@ == middle + spec_concat(views(self.curves@).subrange(0, j as int)),
            decreases self.curves.len() - j,
        {
            write_bytes(out, &self.curves[j].data);
            proof {
                let next = views(self.curves@).subrange(0, j + 1);
                assert(next.drop_last() =~= views(self.curves@).subrange(0, j as int));
                assert(next.last() == self.curves@[j as int]@);
                assert(out@ =~= middle + spec_concat(next));
            }
            j += 1;
        }
        assert(views(self.curves@).subrange(0, self.curves.len() as int) =~= views(self.curves@));
        assert(out@ =~= old(out)@ + spec_entry_bytes(self@)->Ok_0);
        Ok(())
    }
}

/// A run of curve headers takes eight bytes for each.
pub proof fn lemma_headers_bytes_len(headers: Seq<CurveHeader>)
    ensures
        spec_headers_bytes(headers).len() == 8 * headers.len(),
    decreases headers.len(),
{
    if headers.len() > 0 {
        lemma_headers_bytes_len(headers.drop_last());
        assert(spec_header_bytes(headers.last()).len() == 8);
    }
}

/// The eight bytes of the `i`-th header of a run lie at eight times `i` in
/// the bytes of the run.
pub proof fn lemma_headers_bytes_at(headers: Seq<CurveHeader>, i: int)
    requires
        0 <= i < headers.len(),
    ensures
        spec_headers_bytes(headers).len() == 8 * headers.len(),
        spec_headers_bytes(headers).subrange(8 * i, 8 * i + 8) == spec_header_bytes(headers[i]),
    decreases headers.len(),
{
    let before = headers.drop_last();
    lemma_headers_bytes_len(before);
    lemma_headers_bytes_len(headers);
    let bytes = spec_headers_bytes(headers);
    let last = spec_header_bytes(headers.last());
    assert(last.len() == 8);
    if i == headers.len() - 1 {
        assert(bytes.subrange(8 * i, 8 * i + 8) =~= last);
    } else {
        lemma_headers_bytes_at(before, i);
        assert(before[i] == headers[i]);
        assert(bytes.subrange(8 * i, 8 * i + 8) =~= spec_headers_bytes(before).subrange(
            8 * i,
            8 * i + 8,
        ));
    }
}

/// Where the eight bytes at a place are those of a curve header, the code
/// found there is that of its format, and the header is read there.
pub proof fn lemma_header_at(whole: Seq<u8>, at: int, header: CurveHeader)
    requires
        fits(whole, at, 8),
        whole.subrange(at, at + 8) == spec_header_bytes(header),
    ensures
        spec_format_of_tag(be_u16(whole, at + 2)) == Some(header.curve_format),
        spec_header_at(whole, at) == header,
{
    let part = whole.subrange(at, at + 8);
    assert(whole.subrange(at, at + 2) =~= part.subrange(0, 2));
    assert(whole.subrange(at + 2, at + 4) =~= part.subrange(2, 4));
    assert(whole.subrange(at + 4, at + 6) =~= part.subrange(4, 6));
    assert(whole.subrange(at + 6, at + 8) =~= part.subrange(6, 8));
    assert(part.subrange(0, 2) =~= u16_be(header.curve_index));
    assert(part.subrange(2, 4) =~= u16_be(spec_format_tag(header.curve_format)));
    assert(part.subrange(4, 6) =~= u16_be(header.frame_count));
    assert(part.subrange(6, 8) =~= u16_be(header.unk_size_flags));
    lemma_u16_at(whole, at, header.curve_index);
    lemma_u16_at(whole, at + 2, spec_format_tag(header.curve_format));
    lemma_u16_at(whole, at + 4, header.frame_count);
    lemma_u16_at(whole, at + 6, header.unk_size_flags);
    lemma_format_tag_round_trip(header.curve_format);
}

/// A run of curve headers is read back from its bytes wherever they lie.
pub proof fn lemma_headers_round_trip(headers: Seq<CurveHeader>, front: Seq<u8>, tail: Seq<u8>)
    ensures
        spec_headers_bytes(headers).len() == 8 * headers.len(),
        spec_headers(
            front + spec_headers_bytes(headers) + tail,
            front.len() as int,
            headers.len() as int,
        ) == Ok::<Seq<CurveHeader>, NuccError>(headers),
{
    let bytes = spec_headers_bytes(headers);
    let whole = front + bytes + tail;
    let n = headers.len() as int;
    let at = front.len() as int;
    lemma_headers_bytes_len(headers);
    let got = Seq::new(n as nat, |k: int| spec_header_at(whole, at + 8 * k));
    assert forall|i: int| 0 <= i < n implies (#[trigger] spec_format_of_tag(
        be_u16(whole, at + 8 * i + 2),
    )).is_some() && got[i] == headers[i] by {
        lemma_headers_bytes_at(headers, i);
        assert(whole.subrange(at + 8 * i, at + 8 * i + 8) =~= bytes.subrange(8 * i, 8 * i + 8));
        lemma_header_at(whole, at + 8 * i, headers[i]);
    }
    assert(got =~= headers);
}

/// Whether every curve of an entry has a header, and takes as many bytes
/// as its header announces.
pub open spec fn spec_entry_sized(entry: EntryView) -> bool {
    &&& entry.curves.len() == entry.curve_headers.len()
    &&& forall|k: int|
        0 <= k < entry.curve_headers.len() ==> spec_curve_len(
            (#[trigger] entry.curve_headers[k]).curve_format,
            entry.curve_headers[k].frame_count as int,
        ) == Some(entry.curves[k].len() as int)
}

/// Byte runs one behind the other, with one more in front.
pub proof fn lemma_concat_front(first: Seq<u8>, rest: Seq<Seq<u8>>)
    ensures
        spec_concat(seq![first] + rest) == first + spec_concat(rest),
    decreases rest.len(),
{
    let all = seq![first] + rest;
    let empty = Seq::<Seq<u8>>::empty();
    assert(spec_concat(empty) == Seq::<u8>::empty());
    if rest.len() == 0 {
        assert(rest =~= empty);
        assert(all.drop_last() =~= empty);
        assert(all.last() == first);
        assert(Seq::<u8>::empty() + first =~= first + Seq::<u8>::empty());
    } else {
        lemma_concat_front(first, rest.drop_last());
        assert(all.drop_last() =~= seq![first] + rest.drop_last());
        assert(all.last() == rest.last());
        assert((first + spec_concat(rest.drop_last())) + rest.last() =~= first + (spec_concat(
            rest.drop_last(),
        ) + rest.last()));
    }
}

/// The byte runs of curves that take as many bytes as their headers
/// announce are read back, from the `k`-th on, from where they lie one
/// behind the other.
pub proof fn lemma_curves_round_trip(
    headers: Seq<CurveHeader>,
    runs: Seq<Seq<u8>>,
    k: int,
    front: Seq<u8>,
    tail: Seq<u8>,
)
    requires
        0 <= k <= headers.len(),
        runs.len() == headers.len(),
        forall|j: int|
            0 <= j < headers.len() ==> spec_curve_len(
                (#[trigger] headers[j]).curve_format,
                headers[j].frame_count as int,
            ) == Some(runs[j].len() as int),
    ensures
        spec_curves(
            front + spec_concat(runs.subrange(k, runs.len() as int)) + tail,
            front.len() as int,
            headers,
            k,
        ) == Ok::<(Seq<Seq<u8>>, int), NuccError>(
            (
                runs.subrange(k, runs.len() as int),
                (front.len() + spec_concat(runs.subrange(k, runs.len() as int)).len()) as int,
            ),
        ),
    decreases headers.len() - k,
{
    let n = runs.len() as int;
    let left = runs.subrange(k, n);
    let bytes = spec_concat(left);
    let whole = front + bytes + tail;
    let at = front.len() as int;
    if k == n {
        assert(left =~= Seq::<Seq<u8>>::empty());
    } else {
        let first = runs[k];
        let rest = runs.subrange(k + 1, n);
        assert(left =~= seq![first] + rest);
        lemma_concat_front(first, rest);
        let back = spec_concat(rest);
        assert(bytes == first + back);
        let len = first.len() as int;
        assert(spec_curve_len(headers[k].curve_format, headers[k].frame_count as int) == Some(
            len,
        ));
        lemma_curves_round_trip(headers, runs, k + 1, front + first, tail);
        assert(whole =~= (front + first) + back + tail);
        assert(whole.subrange(at, at + len) =~= first);
        let next = spec_curves(whole, at + len, headers, k + 1);
        assert(next == Ok::<(Seq<Seq<u8>>, int), NuccError>((rest, at + len + back.len())));
        assert(spec_curves(whole, at, headers, k) == prepend(seq![first], next));
    }
}

/// What opens an entry is read from its bytes.
proof fn lemma_entry_opening_at(whole: Seq<u8>, at: int, entry: EntryView)
    requires
        entry.curve_headers.len() <= u16::MAX,
        fits(whole, at, 8),
        whole.subrange(at, at + 8) == spec_entry_opening(entry),
    ensures
        spec_coord_at(whole, at) == entry.coord_index,
        spec_entry_format_of_tag(be_u16(whole, at + 4)) == Some(entry.entry_format),
        be_u16(whole, at + 6) == entry.curve_headers.len(),
{
    let part = spec_entry_opening(entry);
    assert(part.len() == 8);
    assert(whole.subrange(at, at + 4) =~= part.subrange(0, 4));
    assert(whole.subrange(at + 4, at + 6) =~= part.subrange(4, 6));
    assert(whole.subrange(at + 6, at + 8) =~= part.subrange(6, 8));
    assert(part.subrange(0, 4) =~= spec_coord_bytes(entry.coord_index));
    assert(part.subrange(4, 6) =~= u16_be(spec_entry_format_tag(entry.entry_format)));
    assert(part.subrange(6, 8) =~= u16_be(entry.curve_headers.len() as u16));
    lemma_coord_at(whole, at, entry.coord_index);
    lemma_u16_at(whole, at + 4, spec_entry_format_tag(entry.entry_format));
    lemma_u16_at(whole, at + 6, entry.curve_headers.len() as u16);
    lemma_entry_format_tag_round_trip(entry.entry_format);
}

/// Headers and curves are read back from where they lie one behind the
/// other.
proof fn lemma_entry_body_round_trip(
    headers: Seq<CurveHeader>,
    runs: Seq<Seq<u8>>,
    front: Seq<u8>,
    tail: Seq<u8>,
)
    requires
        runs.len() == headers.len(),
        forall|j: int|
            0 <= j < headers.len() ==> spec_curve_len(
                (#[trigger] headers[j]).curve_format,
                headers[j].frame_count as int,
            ) == Some(runs[j].len() as int),
    ensures
        ({
            let d = spec_headers_bytes(headers);
            let e = spec_concat(runs);
            let whole = front + d + e + tail;
            &&& d.len() == 8 * headers.len()
            &&& spec_headers(whole, front.len() as int, headers.len() as int) == Ok::<
                Seq<CurveHeader>,
                NuccError,
            >(headers)
            &&& spec_curves(whole, (front.len() + 8 * headers.len()) as int, headers, 0) == Ok::<
                (Seq<Seq<u8>>, int),
                NuccError,
            >((runs, (front.len() + d.len() + e.len()) as int))
        }),
{
    let d = spec_headers_bytes(headers);
    let e = spec_concat(runs);
    let whole = front + d + e + tail;
    lemma_headers_round_trip(headers, front, e + tail);
    assert(whole =~= front + d + (e + tail));
    assert(runs.subrange(0, runs.len() as int) =~= runs);
    lemma_curves_round_trip(headers, runs, 0, front + d, tail);
}

/// An entry whose curves take as many bytes as their headers announce is
/// read back from its bytes wherever they lie, and the reading ends where
/// the bytes end.
pub proof fn lemma_entry_round_trip(entry: EntryView, front: Seq<u8>, tail: Seq<u8>)
    requires
        spec_entry_bytes(entry) is Ok,
        spec_entry_sized(entry),
    ensures
        spec_entry(front + spec_entry_bytes(entry)->Ok_0 + tail, front.len() as int) == Ok::<
            (EntryView, int),
            NuccError,
        >((entry, (front.len() + spec_entry_bytes(entry)->Ok_0.len()) as int)),
{
    let a = spec_entry_opening(entry);
    let d = spec_headers_bytes(entry.curve_headers);
    let e = spec_concat(entry.curves);
    let bytes = spec_entry_bytes(entry)->Ok_0;
    let whole = front + bytes + tail;
    let at = front.len() as int;
    assert(a.len() == 8);
    assert(bytes == a + d + e);
    lemma_entry_body_round_trip(entry.curve_headers, entry.curves, front + a, tail);
    assert(whole =~= (front + a) + d + e + tail);
    assert(whole.subrange(at, at + 8) =~= a);
    lemma_entry_opening_at(whole, at, entry);
    let count = entry.curve_headers.len() as int;
    assert(spec_headers(whole, at + 8, count) == Ok::<Seq<CurveHeader>, NuccError>(
        entry.curve_headers,
    ));
    assert(spec_curves(whole, at + 8 + 8 * count, entry.curve_headers, 0) == Ok::<
        (Seq<Seq<u8>>, int),
        NuccError,
    >((entry.curves, at + bytes.len())));
    reveal(spec_entry);
}

/// An entry whose curve headers lie inside the data, one of them with a
/// format code outside the table, is an `UnknownCurveFormat`, and so is a
/// run of entries that begins with it. The code 0x42 is outside the table.
pub proof fn lemma_unknown_format_is_rejected(data: Seq<u8>, at: int, k: int, n: nat)
    requires
        fits(data, at, 8),
        spec_entry_format_of_tag(be_u16(data, at + 4)) is Some,
        fits(data, at + 8, 8 * be_u16(data, at + 6)),
        0 <= k < be_u16(data, at + 6),
        spec_format_of_tag(be_u16(data, at + 8 + 8 * k + 2)) is None,
        n > 0,
    ensures
        spec_format_of_tag(0x42) is None,
        spec_headers(data, at + 8, be_u16(data, at + 6)) == Err::<Seq<CurveHeader>, NuccError>(
            NuccError::UnknownCurveFormat,
        ),
        spec_entry(data, at) == Err::<(EntryView, int), NuccError>(NuccError::UnknownCurveFormat),
        spec_entries(data, at, n) == Err::<(Seq<EntryView>, int), NuccError>(
            NuccError::UnknownCurveFormat,
        ),
{
    reveal(spec_entry);
    assert(spec_format_of_tag(be_u16(data, (at + 8) + 8 * k + 2)).is_none());
}

} // verus!
