use vstd::prelude::*;

use crate::error::NuccError;
use crate::utils::be_u16;
use crate::utils::fits;
use crate::utils::pad4;
use crate::utils::read_u16;
use crate::utils::u16_be;
use crate::utils::write_u16;

verus! {

/// The encodings in which a curve's keyframes can lie in the file.
#[derive(Debug, Clone, Copy, PartialEq, Eq, Structural)]
pub enum CurveFormat {
    Vector3Fixed,
    Vector3Linear,
    Vector3Bezier,
    EulerXYZFixed,
    EulerInterpolated,
    QuatnerionLinear,
    FloatFixed,
    FloatLinear,
    Vector2Fixed,
    Vector2Linear,
    OpacityShortTable,
    ScaleShortTable,
    QuaternionShortTable,
    ColorRGBTable,
    Vector3Table,
    FloatTable,
    QuaternionTable,
    FloatTableNoInterp,
    Vector3ShortLinear,
    Vector3TableNoInterp,
    QuaternionShortTableNoInterp,
    OpacityShortTableNoInterp,
}

/// The code under which each format is stored.
pub open spec fn spec_format_tag(format: CurveFormat) -> u16 {
    match format {
        CurveFormat::Vector3Fixed => 0x05,
        CurveFormat::Vector3Linear => 0x06,
        CurveFormat::Vector3Bezier => 0x07,
        CurveFormat::EulerXYZFixed => 0x08,
        CurveFormat::EulerInterpolated => 0x09,
        CurveFormat::QuatnerionLinear => 0x0A,
        CurveFormat::FloatFixed => 0x0B,
        CurveFormat::FloatLinear => 0x0C,
        CurveFormat::Vector2Fixed => 0x0D,
        CurveFormat::Vector2Linear => 0x0E,
        CurveFormat::OpacityShortTable => 0x0F,
        CurveFormat::ScaleShortTable => 0x10,
        CurveFormat::QuaternionShortTable => 0x11,
        CurveFormat::ColorRGBTable => 0x14,
        CurveFormat::Vector3Table => 0x15,
        CurveFormat::FloatTable => 0x16,
        CurveFormat::QuaternionTable => 0x17,
        CurveFormat::FloatTableNoInterp => 0x18,
        CurveFormat::Vector3ShortLinear => 0x19,
        CurveFormat::Vector3TableNoInterp => 0x1A,
        CurveFormat::QuaternionShortTableNoInterp => 0x1B,
        CurveFormat::OpacityShortTableNoInterp => 0x1D,
    }
}

/// The format that a code stands for, if any.
pub open spec fn spec_format_of_tag(tag: int) -> Option<CurveFormat> {
    if tag == 0x05 {
        Some(CurveFormat::Vector3Fixed)
    } else if tag == 0x06 {
        Some(CurveFormat::Vector3Linear)
    } else if tag == 0x07 {
        Some(CurveFormat::Vector3Bezier)
    } else if tag == 0x08 {
        Some(CurveFormat::EulerXYZFixed)
    } else if tag == 0x09 {
        Some(CurveFormat::EulerInterpolated)
    } else if tag == 0x0A {
        Some(CurveFormat::QuatnerionLinear)
    } else if tag == 0x0B {
        Some(CurveFormat::FloatFixed)
    } else if tag == 0x0C {
        Some(CurveFormat::FloatLinear)
    } else if tag == 0x0D {
        Some(CurveFormat::Vector2Fixed)
    } else if tag == 0x0E {
        Some(CurveFormat::Vector2Linear)
    } else if tag == 0x0F {
        Some(CurveFormat::OpacityShortTable)
    } else if tag == 0x10 {
        Some(CurveFormat::ScaleShortTable)
    } else if tag == 0x11 {
        Some(CurveFormat::QuaternionShortTable)
    } else if tag == 0x14 {
        Some(CurveFormat::ColorRGBTable)
    } else if tag == 0x15 {
        Some(CurveFormat::Vector3Table)
    } else if tag == 0x16 {
        Some(CurveFormat::FloatTable)
    } else if tag == 0x17 {
        Some(CurveFormat::QuaternionTable)
    } else if tag == 0x18 {
        Some(CurveFormat::FloatTableNoInterp)
    } else if tag == 0x19 {
        Some(CurveFormat::Vector3ShortLinear)
    } else if tag == 0x1A {
        Some(CurveFormat::Vector3TableNoInterp)
    } else if tag == 0x1B {
        Some(CurveFormat::QuaternionShortTableNoInterp)
    } else if tag == 0x1D {
        Some(CurveFormat::OpacityShortTableNoInterp)
    } else {
        None
    }
}

/// Bytes that one keyframe takes in each format; `None` for the formats
/// that have no codec.
pub open spec fn spec_size_per_frame(format: CurveFormat) -> Option<int> {
    match format {
        CurveFormat::OpacityShortTable | CurveFormat::OpacityShortTableNoInterp => Some(0x02),
        CurveFormat::ColorRGBTable => Some(0x03),
        CurveFormat::FloatFixed | CurveFormat::FloatTable | CurveFormat::FloatTableNoInterp => Some(
            0x04,
        ),
        CurveFormat::ScaleShortTable => Some(0x06),
        CurveFormat::FloatLinear
        | CurveFormat::Vector2Fixed
        | CurveFormat::QuaternionShortTable
        | CurveFormat::QuaternionShortTableNoInterp => Some(0x08),
        CurveFormat::Vector3Fixed
        | CurveFormat::EulerXYZFixed
        | CurveFormat::Vector2Linear
        | CurveFormat::Vector3Table
        | CurveFormat::Vector3TableNoInterp => Some(0x0C),
        CurveFormat::Vector3Linear | CurveFormat::QuaternionTable => Some(0x10),
        CurveFormat::QuatnerionLinear => Some(0x14),
        CurveFormat::Vector3Bezier => None,
        CurveFormat::EulerInterpolated => None,
        CurveFormat::Vector3ShortLinear => None,
    }
}

/// Bytes that a curve of `frame_count` keyframes takes in the file: the
/// keyframes, rounded up to a multiple of four.
pub open spec fn spec_curve_len(format: CurveFormat, frame_count: int) -> Option<int> {
    match spec_size_per_frame(format) {
        None => None,
        Some(size) => Some(size * frame_count + pad4(size * frame_count)),
    }
}

impl CurveFormat {
    /// The code under which this format is stored.
    pub fn tag(&self) -> (r: u16)
        ensures
            r == spec_format_tag(*self),
    {
        match self {
            CurveFormat::Vector3Fixed => 0x05,
            CurveFormat::Vector3Linear => 0x06,
            CurveFormat::Vector3Bezier => 0x07,
            CurveFormat::EulerXYZFixed => 0x08,
            CurveFormat::EulerInterpolated => 0x09,
            CurveFormat::QuatnerionLinear => 0x0A,
            CurveFormat::FloatFixed => 0x0B,
            CurveFormat::FloatLinear => 0x0C,
            CurveFormat::Vector2Fixed => 0x0D,
            CurveFormat::Vector2Linear => 0x0E,
            CurveFormat::OpacityShortTable => 0x0F,
            CurveFormat::ScaleShortTable => 0x10,
            CurveFormat::QuaternionShortTable => 0x11,
            CurveFormat::ColorRGBTable => 0x14,
            CurveFormat::Vector3Table => 0x15,
            CurveFormat::FloatTable => 0x16,
            CurveFormat::QuaternionTable => 0x17,
            CurveFormat::FloatTableNoInterp => 0x18,
            CurveFormat::Vector3ShortLinear => 0x19,
            CurveFormat::Vector3TableNoInterp => 0x1A,
            CurveFormat::QuaternionShortTableNoInterp => 0x1B,
            CurveFormat::OpacityShortTableNoInterp => 0x1D,
        }
    }

    /// The format that a code stands for; `UnknownCurveFormat` for a code
    /// outside the table.
    pub fn from_tag(tag: u16) -> (r: Result<CurveFormat, NuccError>)
        ensures
            r == (match spec_format_of_tag(tag as int) {
                Some(f) => Ok::<CurveFormat, NuccError>(f),
                None => Err(NuccError::UnknownCurveFormat),
            }),
    {
        match tag {
            0x05 => Ok(CurveFormat::Vector3Fixed),
            0x06 => Ok(CurveFormat::Vector3Linear),
            0x07 => Ok(CurveFormat::Vector3Bezier),
            0x08 => Ok(CurveFormat::EulerXYZFixed),
            0x09 => Ok(CurveFormat::EulerInterpolated),
            0x0A => Ok(CurveFormat::QuatnerionLinear),
            0x0B => Ok(CurveFormat::FloatFixed),
            0x0C => Ok(CurveFormat::FloatLinear),
            0x0D => Ok(CurveFormat::Vector2Fixed),
            0x0E => Ok(CurveFormat::Vector2Linear),
            0x0F => Ok(CurveFormat::OpacityShortTable),
            0x10 => Ok(CurveFormat::ScaleShortTable),
            0x11 => Ok(CurveFormat::QuaternionShortTable),
            0x14 => Ok(CurveFormat::ColorRGBTable),
            0x15 => Ok(CurveFormat::Vector3Table),
            0x16 => Ok(CurveFormat::FloatTable),
            0x17 => Ok(CurveFormat::QuaternionTable),
            0x18 => Ok(CurveFormat::FloatTableNoInterp),
            0x19 => Ok(CurveFormat::Vector3ShortLinear),
            0x1A => Ok(CurveFormat::Vector3TableNoInterp),
            0x1B => Ok(CurveFormat::QuaternionShortTableNoInterp),
            0x1D => Ok(CurveFormat::OpacityShortTableNoInterp),
            _ => Err(NuccError::UnknownCurveFormat),
        }
    }

    /// Whether the format has a codec.
    pub fn is_implemented(&self) -> (r: bool)
        ensures
            r == spec_size_per_frame(*self).is_some(),
    {
        match self {
            CurveFormat::Vector3Bezier => false,
            CurveFormat::EulerInterpolated => false,
            CurveFormat::Vector3ShortLinear => false,
            _ => true,
        }
    }

    /// Bytes that one keyframe takes in this format.
    pub fn size_per_frame(&self) -> (r: usize)
        requires
            spec_size_per_frame(*self).is_some(),
        ensures
            r == spec_size_per_frame(*self).unwrap(),
    {
        match self {
            CurveFormat::OpacityShortTable | CurveFormat::OpacityShortTableNoInterp => 0x02,
            CurveFormat::ColorRGBTable => 0x03,
            CurveFormat::FloatFixed | CurveFormat::FloatTable | CurveFormat::FloatTableNoInterp => {
                0x04
            },
            CurveFormat::ScaleShortTable => 0x06,
            CurveFormat::FloatLinear
            | CurveFormat::Vector2Fixed
            | CurveFormat::QuaternionShortTable
            | CurveFormat::QuaternionShortTableNoInterp => 0x08,
            CurveFormat::Vector3Fixed
            | CurveFormat::EulerXYZFixed
            | CurveFormat::Vector2Linear
            | CurveFormat::Vector3Table
            | CurveFormat::Vector3TableNoInterp => 0x0C,
            CurveFormat::Vector3Linear | CurveFormat::QuaternionTable => 0x10,
            CurveFormat::QuatnerionLinear => 0x14,
            _ => 0,
        }
    }

    /// Bytes that a curve of `frame_count` keyframes takes in the file;
    /// `UnimplementedCurveFormat` for a format without a codec.
    pub fn curve_len(&self, frame_count: u16) -> (r: Result<usize, NuccError>)
        ensures
            r == (match spec_curve_len(*self, frame_count as int) {
                Some(n) => Ok::<usize, NuccError>(n as usize),
                None => Err(NuccError::UnimplementedCurveFormat),
            }),
            r matches Ok(n) ==> n == spec_curve_len(*self, frame_count as int).unwrap() && n
                <= 0x14 * 0xffff + 3 && n % 4 == 0,
    {
        if !self.is_implemented() {
            return Err(NuccError::UnimplementedCurveFormat);
        }
        let size: u32 = self.size_per_frame() as u32;
        assert(size * frame_count <= 0x14 * 0xffff) by (nonlinear_arith)
            requires
                0 <= size <= 0x14,
                0 <= frame_count <= 0xffff,
        ;
        let raw: u32 = size * (frame_count as u32);
        let pad = crate::utils::deku_align(raw, 4);
        Ok((raw + pad) as usize)
    }
}

/// The code of a format selects that format.
pub proof fn lemma_format_tag_round_trip(format: CurveFormat)
    ensures
        spec_format_of_tag(spec_format_tag(format) as int) == Some(format),
{
}

/// What precedes each curve: which channel it drives, how it is encoded,
/// and how many keyframes it has.
#[derive(Debug, Clone, Copy, PartialEq, Eq, Structural)]
pub struct CurveHeader {
    pub curve_index: u16,
    pub curve_format: CurveFormat,
    pub frame_count: u16,
    pub unk_size_flags: u16,
}

/// The curve header stored at `at`, for a known format code.
pub open spec fn spec_header_at(data: Seq<u8>, at: int) -> CurveHeader {
    CurveHeader {
        curve_index: be_u16(data, at) as u16,
        curve_format: spec_format_of_tag(be_u16(data, at + 2)).unwrap(),
        frame_count: be_u16(data, at + 4) as u16,
        unk_size_flags: be_u16(data, at + 6) as u16,
    }
}

/// The `n` curve headers stored from `at` on. They must all lie inside the
/// data, else `TruncatedInput`; then their format codes must all be known,
/// else `UnknownCurveFormat`.
pub open spec fn spec_headers(data: Seq<u8>, at: int, n: int) -> Result<
    Seq<CurveHeader>,
    NuccError,
> {
    if !fits(data, at, 8 * n) {
        Err(NuccError::TruncatedInput)
    } else if exists|k: int|
        0 <= k < n && (#[trigger] spec_format_of_tag(be_u16(data, at + 8 * k + 2))).is_none() {
        Err(NuccError::UnknownCurveFormat)
    } else {
        Ok(Seq::new(n as nat, |k: int| spec_header_at(data, at + 8 * k)))
    }
}

/// The bytes of a curve header.
pub open spec fn spec_header_bytes(header: CurveHeader) -> Seq<u8> {
    u16_be(header.curve_index) + u16_be(spec_format_tag(header.curve_format)) + u16_be(
        header.frame_count,
    ) + u16_be(header.unk_size_flags)
}

impl CurveHeader {
    /// Reads `n` curve headers from `at` on.
    pub fn read_all(data: &Vec<u8>, at: usize, n: u16) -> (r: Result<Vec<CurveHeader>, NuccError>)
        ensures
            r matches Ok(v) ==> spec_headers(data@, at as int, n as int) == Ok::<
                Seq<CurveHeader>,
                NuccError,
            >(v@),
            r matches Err(e) ==> spec_headers(data@, at as int, n as int) == Err::<
                Seq<CurveHeader>,
                NuccError,
            >(e),
    {
        let total: usize = 8 * (n as usize);
        if data.len() < total || at > data.len() - total {
            return Err(NuccError::TruncatedInput);
        }
        let mut headers: Vec<CurveHeader> = Vec::new();
        let mut k: usize = 0;
        while k < n as usize
            invariant
                k <= n,
                at + 8 * n <= data.len(),
                headers@.len() == k,
                forall|j: int|
                    0 <= j < k ==> (#[trigger] spec_format_of_tag(
                        be_u16(data@, at + 8 * j + 2),
                    )).is_some(),
                forall|j: int| 0 <= j < k ==> headers@[j] == spec_header_at(data@, at + 8 * j),
            decreases n - k,
        {
            let base: usize = at + 8 * k;
            let curve_index = match read_u16(data, base) {
                Ok(v) => v,
                Err(e) => { return Err(NuccError::TruncatedInput); },
            };
            let tag = match read_u16(data, base + 2) {
                Ok(v) => v,
                Err(e) => { return Err(NuccError::TruncatedInput); },
            };
            let frame_count = match read_u16(data, base + 4) {
                Ok(v) => v,
                Err(e) => { return Err(NuccError::TruncatedInput); },
            };
            let unk_size_flags = match read_u16(data, base + 6) {
                Ok(v) => v,
                Err(e) => { return Err(NuccError::TruncatedInput); },
            };
            let curve_format = match CurveFormat::from_tag(tag) {
                Ok(f) => f,
                Err(e) => {
                    assert(spec_format_of_tag(be_u16(data@, at + 8 * (k as int) + 2)).is_none());
                    return Err(e);
                },
            };
            headers.push(CurveHeader { curve_index, curve_format, frame_count, unk_size_flags });
            k += 1;
        }
        assert(headers@ =~= Seq::new(n as nat, |k: int| spec_header_at(data@, at + 8 * k)));
        Ok(headers)
    }

    /// Appends the bytes of this header.
    pub fn write(&self, out: &mut Vec<u8>)
        ensures
            final(out)@ == old(out)@ + spec_header_bytes(*self),
    {
        write_u16(out, self.curve_index);
        write_u16(out, self.curve_format.tag());
        write_u16(out, self.frame_count);
        write_u16(out, self.unk_size_flags);
        assert(out@ =~= old(out)@ + spec_header_bytes(*self));
    }
}

/// The raw bytes of one curve.
#[derive(Debug, PartialEq, Eq)]
pub struct Curve {
    pub data: Vec<u8>,
}

impl View for Curve {
    type V = Seq<u8>;

    open spec fn view(&self) -> Seq<u8> {
        self.data@
    }
}

} // verus!
