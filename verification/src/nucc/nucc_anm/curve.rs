//! Curves: the keyframes of one channel of an entry.

use vstd::prelude::*;

use crate::error::NuccError;
use crate::nucc_chunk::nucc_chunk_anm::curve::spec_curve_len;
use crate::nucc_chunk::nucc_chunk_anm::curve::spec_size_per_frame;
use crate::nucc_chunk::nucc_chunk_anm::curve::Curve as ChunkCurve;
use crate::nucc_chunk::nucc_chunk_anm::curve::CurveFormat;
use crate::nucc_chunk::nucc_chunk_anm::curve::CurveHeader;
use crate::utils::be_i16;
use crate::utils::be_i32;
use crate::utils::be_u32;
use crate::utils::fits;
use crate::utils::i16_be;
use crate::utils::i32_be;
use crate::utils::lemma_i16_round_trip;
use crate::utils::lemma_i32_round_trip;
use crate::utils::lemma_u32_round_trip;
use crate::utils::pad4;
use crate::utils::read_i16;
use crate::utils::read_i32;
use crate::utils::read_u32;
use crate::utils::read_u8;
use crate::utils::u32_be;
use crate::utils::write_i16;
use crate::utils::write_i32;
use crate::utils::write_u32;
use crate::utils::write_u8;
use crate::utils::write_zeros;
use crate::utils::zeros;

verus! {

/// A keyframe value of fixed width, with its big-endian layout.
pub trait Frame: Sized {
    /// Bytes that one value takes.
    spec fn width() -> int;

    /// The value stored at `at`.
    spec fn spec_at(data: Seq<u8>, at: int) -> Self;

    /// The bytes of a value.
    spec fn spec_bytes(self) -> Seq<u8>;

    fn exec_width() -> (w: usize)
        ensures
            w == Self::width(),
            0 < w <= 20,
    ;

    /// Reads the value stored at `at`; `TruncatedInput` when it does not
    /// lie inside the data.
    fn read(data: &Vec<u8>, at: usize) -> (r: Result<Self, NuccError>)
        ensures
            r == (if fits(data@, at as int, Self::width()) {
                Ok::<Self, NuccError>(Self::spec_at(data@, at as int))
            } else {
                Err(NuccError::TruncatedInput)
            }),
    ;

    /// Appends the bytes of the value.
    fn write(&self, out: &mut Vec<u8>)
        ensures
            final(out)@ == old(out)@ + self.spec_bytes(),
    ;

    /// A copy of the value.
    fn duplicate(&self) -> (r: Self)
        ensures
            r == *self,
    ;

    /// What is read at a place depends on the bytes of that place alone.
    proof fn lemma_local(a: Seq<u8>, at: int, b: Seq<u8>, bt: int)
        requires
            fits(a, at, Self::width()),
            fits(b, bt, Self::width()),
            a.subrange(at, at + Self::width()) == b.subrange(bt, bt + Self::width()),
        ensures
            Self::spec_at(a, at) == Self::spec_at(b, bt),
    ;

    /// A value takes `width` bytes and is read back from them.
    proof fn lemma_round_trip(self)
        ensures
            0 < Self::width() <= 20,
            self.spec_bytes().len() == Self::width(),
            Self::spec_at(self.spec_bytes(), 0) == self,
    ;
}

/// Two floats, each held as its IEEE-754 bit pattern.
#[derive(Debug, Clone, Copy, PartialEq, Eq, Structural)]
pub struct Vector2(pub u32, pub u32);

impl Frame for Vector2 {
    open spec fn width() -> int {
        8
    }

    open spec fn spec_at(data: Seq<u8>, at: int) -> Self {
        Vector2(be_u32(data, at) as u32, be_u32(data, at + 4) as u32)
    }

    open spec fn spec_bytes(self) -> Seq<u8> {
        u32_be(self.0) + u32_be(self.1)
    }

    fn exec_width() -> (w: usize) {
        8
    }

    fn read(data: &Vec<u8>, at: usize) -> (r: Result<Self, NuccError>) {
        if data.len() < 8 || at > data.len() - 8 {
            return Err(NuccError::TruncatedInput);
        }
        let f0 = match read_u32(data, at) {
            Ok(v) => v,
            Err(e) => { return Err(e); },
        };
        let f1 = match read_u32(data, at + 4) {
            Ok(v) => v,
            Err(e) => { return Err(e); },
        };
        Ok(Vector2(f0, f1))
    }

    fn write(&self, out: &mut Vec<u8>) {
        write_u32(out, self.0);
        write_u32(out, self.1);
        assert(out@ =~= old(out)@ + self.spec_bytes());
    }

    fn duplicate(&self) -> (r: Self) {
        *self
    }

    proof fn lemma_local(a: Seq<u8>, at: int, b: Seq<u8>, bt: int) {
        let x = a.subrange(at, at + 8);
        let y = b.subrange(bt, bt + 8);
        assert(a[at + 0] == x[0] && b[bt + 0] == y[0]);
        assert(a[at + 1] == x[1] && b[bt + 1] == y[1]);
        assert(a[at + 2] == x[2] && b[bt + 2] == y[2]);
        assert(a[at + 3] == x[3] && b[bt + 3] == y[3]);
        assert(a[at + 4] == x[4] && b[bt + 4] == y[4]);
        assert(a[at + 5] == x[5] && b[bt + 5] == y[5]);
        assert(a[at + 6] == x[6] && b[bt + 6] == y[6]);
        assert(a[at + 7] == x[7] && b[bt + 7] == y[7]);
    }

    proof fn lemma_round_trip(self) {
        lemma_u32_round_trip(self.0);
        lemma_u32_round_trip(self.1);
        assert(Self::spec_at(self.spec_bytes(), 0) == self);
    }
}

/// Three floats, each held as its IEEE-754 bit pattern.
#[derive(Debug, Clone, Copy, PartialEq, Eq, Structural)]
pub struct Vector3(pub u32, pub u32, pub u32);

impl Frame for Vector3 {
    open spec fn width() -> int {
        12
    }

    open spec fn spec_at(data: Seq<u8>, at: int) -> Self {
        Vector3(be_u32(data, at) as u32, be_u32(data, at + 4) as u32, be_u32(data, at + 8) as u32)
    }

    open spec fn spec_bytes(self) -> Seq<u8> {
        u32_be(self.0) + u32_be(self.1) + u32_be(self.2)
    }

    fn exec_width() -> (w: usize) {
        12
    }

    fn read(data: &Vec<u8>, at: usize) -> (r: Result<Self, NuccError>) {
        if data.len() < 12 || at > data.len() - 12 {
            return Err(NuccError::TruncatedInput);
        }
        let f0 = match read_u32(data, at) {
            Ok(v) => v,
            Err(e) => { return Err(e); },
        };
        let f1 = match read_u32(data, at + 4) {
            Ok(v) => v,
            Err(e) => { return Err(e); },
        };
        let f2 = match read_u32(data, at + 8) {
            Ok(v) => v,
            Err(e) => { return Err(e); },
        };
        Ok(Vector3(f0, f1, f2))
    }

    fn write(&self, out: &mut Vec<u8>) {
        write_u32(out, self.0);
        write_u32(out, self.1);
        write_u32(out, self.2);
        assert(out@ =~= old(out)@ + self.spec_bytes());
    }

    fn duplicate(&self) -> (r: Self) {
        *self
    }

    proof fn lemma_local(a: Seq<u8>, at: int, b: Seq<u8>, bt: int) {
        let x = a.subrange(at, at + 12);
        let y = b.subrange(bt, bt + 12);
        assert(a[at + 0] == x[0] && b[bt + 0] == y[0]);
        assert(a[at + 1] == x[1] && b[bt + 1] == y[1]);
        assert(a[at + 2] == x[2] && b[bt + 2] == y[2]);
        assert(a[at + 3] == x[3] && b[bt + 3] == y[3]);
        assert(a[at + 4] == x[4] && b[bt + 4] == y[4]);
        assert(a[at + 5] == x[5] && b[bt + 5] == y[5]);
        assert(a[at + 6] == x[6] && b[bt + 6] == y[6]);
        assert(a[at + 7] == x[7] && b[bt + 7] == y[7]);
        assert(a[at + 8] == x[8] && b[bt + 8] == y[8]);
        assert(a[at + 9] == x[9] && b[bt + 9] == y[9]);
        assert(a[at + 10] == x[10] && b[bt + 10] == y[10]);
        assert(a[at + 11] == x[11] && b[bt + 11] == y[11]);
    }

    proof fn lemma_round_trip(self) {
        lemma_u32_round_trip(self.0);
        lemma_u32_round_trip(self.1);
        lemma_u32_round_trip(self.2);
        assert(Self::spec_at(self.spec_bytes(), 0) == self);
    }
}

/// Three signed 16-bit components.
#[derive(Debug, Clone, Copy, PartialEq, Eq, Structural)]
pub struct Vector3Short(pub i16, pub i16, pub i16);

impl Frame for Vector3Short {
    open spec fn width() -> int {
        6
    }

    open spec fn spec_at(data: Seq<u8>, at: int) -> Self {
        Vector3Short(
            be_i16(data, at) as i16,
            be_i16(data, at + 2) as i16,
            be_i16(data, at + 4) as i16,
        )
    }

    open spec fn spec_bytes(self) -> Seq<u8> {
        i16_be(self.0) + i16_be(self.1) + i16_be(self.2)
    }

    fn exec_width() -> (w: usize) {
        6
    }

    fn read(data: &Vec<u8>, at: usize) -> (r: Result<Self, NuccError>) {
        if data.len() < 6 || at > data.len() - 6 {
            return Err(NuccError::TruncatedInput);
        }
        let f0 = match read_i16(data, at) {
            Ok(v) => v,
            Err(e) => { return Err(e); },
        };
        let f1 = match read_i16(data, at + 2) {
            Ok(v) => v,
            Err(e) => { return Err(e); },
        };
        let f2 = match read_i16(data, at + 4) {
            Ok(v) => v,
            Err(e) => { return Err(e); },
        };
        Ok(Vector3Short(f0, f1, f2))
    }

    fn write(&self, out: &mut Vec<u8>) {
        write_i16(out, self.0);
        write_i16(out, self.1);
        write_i16(out, self.2);
        assert(out@ =~= old(out)@ + self.spec_bytes());
    }

    fn duplicate(&self) -> (r: Self) {
        *self
    }

    proof fn lemma_local(a: Seq<u8>, at: int, b: Seq<u8>, bt: int) {
        let x = a.subrange(at, at + 6);
        let y = b.subrange(bt, bt + 6);
        assert(a[at + 0] == x[0] && b[bt + 0] == y[0]);
        assert(a[at + 1] == x[1] && b[bt + 1] == y[1]);
        assert(a[at + 2] == x[2] && b[bt + 2] == y[2]);
        assert(a[at + 3] == x[3] && b[bt + 3] == y[3]);
        assert(a[at + 4] == x[4] && b[bt + 4] == y[4]);
        assert(a[at + 5] == x[5] && b[bt + 5] == y[5]);
    }

    proof fn lemma_round_trip(self) {
        lemma_i16_round_trip(self.0);
        lemma_i16_round_trip(self.1);
        lemma_i16_round_trip(self.2);
        assert(Self::spec_at(self.spec_bytes(), 0) == self);
    }
}

/// Four floats, each held as its IEEE-754 bit pattern.
#[derive(Debug, Clone, Copy, PartialEq, Eq, Structural)]
pub struct Quaternion(pub u32, pub u32, pub u32, pub u32);

impl Frame for Quaternion {
    open spec fn width() -> int {
        16
    }

    open spec fn spec_at(data: Seq<u8>, at: int) -> Self {
        Quaternion(
            be_u32(data, at) as u32,
            be_u32(data, at + 4) as u32,
            be_u32(data, at + 8) as u32,
            be_u32(data, at + 12) as u32,
        )
    }

    open spec fn spec_bytes(self) -> Seq<u8> {
        u32_be(self.0) + u32_be(self.1) + u32_be(self.2) + u32_be(self.3)
    }

    fn exec_width() -> (w: usize) {
        16
    }

    fn read(data: &Vec<u8>, at: usize) -> (r: Result<Self, NuccError>) {
        if data.len() < 16 || at > data.len() - 16 {
            return Err(NuccError::TruncatedInput);
        }
        let f0 = match read_u32(data, at) {
            Ok(v) => v,
            Err(e) => { return Err(e); },
        };
        let f1 = match read_u32(data, at + 4) {
            Ok(v) => v,
            Err(e) => { return Err(e); },
        };
        let f2 = match read_u32(data, at + 8) {
            Ok(v) => v,
            Err(e) => { return Err(e); },
        };
        let f3 = match read_u32(data, at + 12) {
            Ok(v) => v,
            Err(e) => { return Err(e); },
        };
        Ok(Quaternion(f0, f1, f2, f3))
    }

    fn write(&self, out: &mut Vec<u8>) {
        write_u32(out, self.0);
        write_u32(out, self.1);
        write_u32(out, self.2);
        write_u32(out, self.3);
        assert(out@ =~= old(out)@ + self.spec_bytes());
    }

    fn duplicate(&self) -> (r: Self) {
        *self
    }

    proof fn lemma_local(a: Seq<u8>, at: int, b: Seq<u8>, bt: int) {
        let x = a.subrange(at, at + 16);
        let y = b.subrange(bt, bt + 16);
        assert(a[at + 0] == x[0] && b[bt + 0] == y[0]);
        assert(a[at + 1] == x[1] && b[bt + 1] == y[1]);
        assert(a[at + 2] == x[2] && b[bt + 2] == y[2]);
        assert(a[at + 3] == x[3] && b[bt + 3] == y[3]);
        assert(a[at + 4] == x[4] && b[bt + 4] == y[4]);
        assert(a[at + 5] == x[5] && b[bt + 5] == y[5]);
        assert(a[at + 6] == x[6] && b[bt + 6] == y[6]);
        assert(a[at + 7] == x[7] && b[bt + 7] == y[7]);
        assert(a[at + 8] == x[8] && b[bt + 8] == y[8]);
        assert(a[at + 9] == x[9] && b[bt + 9] == y[9]);
        assert(a[at + 10] == x[10] && b[bt + 10] == y[10]);
        assert(a[at + 11] == x[11] && b[bt + 11] == y[11]);
        assert(a[at + 12] == x[12] && b[bt + 12] == y[12]);
        assert(a[at + 13] == x[13] && b[bt + 13] == y[13]);
        assert(a[at + 14] == x[14] && b[bt + 14] == y[14]);
        assert(a[at + 15] == x[15] && b[bt + 15] == y[15]);
    }

    proof fn lemma_round_trip(self) {
        lemma_u32_round_trip(self.0);
        lemma_u32_round_trip(self.1);
        lemma_u32_round_trip(self.2);
        lemma_u32_round_trip(self.3);
        assert(Self::spec_at(self.spec_bytes(), 0) == self);
    }
}

/// Four signed 16-bit components.
#[derive(Debug, Clone, Copy, PartialEq, Eq, Structural)]
pub struct QuaternionShort(pub i16, pub i16, pub i16, pub i16);

impl Frame for QuaternionShort {
    open spec fn width() -> int {
        8
    }

    open spec fn spec_at(data: Seq<u8>, at: int) -> Self {
        QuaternionShort(
            be_i16(data, at) as i16,
            be_i16(data, at + 2) as i16,
            be_i16(data, at + 4) as i16,
            be_i16(data, at + 6) as i16,
        )
    }

    open spec fn spec_bytes(self) -> Seq<u8> {
        i16_be(self.0) + i16_be(self.1) + i16_be(self.2) + i16_be(self.3)
    }

    fn exec_width() -> (w: usize) {
        8
    }

    fn read(data: &Vec<u8>, at: usize) -> (r: Result<Self, NuccError>) {
        if data.len() < 8 || at > data.len() - 8 {
            return Err(NuccError::TruncatedInput);
        }
        let f0 = match read_i16(data, at) {
            Ok(v) => v,
            Err(e) => { return Err(e); },
        };
        let f1 = match read_i16(data, at + 2) {
            Ok(v) => v,
            Err(e) => { return Err(e); },
        };
        let f2 = match read_i16(data, at + 4) {
            Ok(v) => v,
            Err(e) => { return Err(e); },
        };
        let f3 = match read_i16(data, at + 6) {
            Ok(v) => v,
            Err(e) => { return Err(e); },
        };
        Ok(QuaternionShort(f0, f1, f2, f3))
    }

    fn write(&self, out: &mut Vec<u8>) {
        write_i16(out, self.0);
        write_i16(out, self.1);
        write_i16(out, self.2);
        write_i16(out, self.3);
        assert(out@ =~= old(out)@ + self.spec_bytes());
    }

    fn duplicate(&self) -> (r: Self) {
        *self
    }

    proof fn lemma_local(a: Seq<u8>, at: int, b: Seq<u8>, bt: int) {
        let x = a.subrange(at, at + 8);
        let y = b.subrange(bt, bt + 8);
        assert(a[at + 0] == x[0] && b[bt + 0] == y[0]);
        assert(a[at + 1] == x[1] && b[bt + 1] == y[1]);
        assert(a[at + 2] == x[2] && b[bt + 2] == y[2]);
        assert(a[at + 3] == x[3] && b[bt + 3] == y[3]);
        assert(a[at + 4] == x[4] && b[bt + 4] == y[4]);
        assert(a[at + 5] == x[5] && b[bt + 5] == y[5]);
        assert(a[at + 6] == x[6] && b[bt + 6] == y[6]);
        assert(a[at + 7] == x[7] && b[bt + 7] == y[7]);
    }

    proof fn lemma_round_trip(self) {
        lemma_i16_round_trip(self.0);
        lemma_i16_round_trip(self.1);
        lemma_i16_round_trip(self.2);
        lemma_i16_round_trip(self.3);
        assert(Self::spec_at(self.spec_bytes(), 0) == self);
    }
}

/// A colour of three bytes.
#[derive(Debug, Clone, Copy, PartialEq, Eq, Structural)]
pub struct RGB(pub u8, pub u8, pub u8);

impl Frame for RGB {
    open spec fn width() -> int {
        3
    }

    open spec fn spec_at(data: Seq<u8>, at: int) -> Self {
        RGB(data[at], data[at + 1], data[at + 2])
    }

    open spec fn spec_bytes(self) -> Seq<u8> {
        seq![self.0] + seq![self.1] + seq![self.2]
    }

    fn exec_width() -> (w: usize) {
        3
    }

    fn read(data: &Vec<u8>, at: usize) -> (r: Result<Self, NuccError>) {
        if data.len() < 3 || at > data.len() - 3 {
            return Err(NuccError::TruncatedInput);
        }
        let f0 = match read_u8(data, at) {
            Ok(v) => v,
            Err(e) => { return Err(e); },
        };
        let f1 = match read_u8(data, at + 1) {
            Ok(v) => v,
            Err(e) => { return Err(e); },
        };
        let f2 = match read_u8(data, at + 2) {
            Ok(v) => v,
            Err(e) => { return Err(e); },
        };
        Ok(RGB(f0, f1, f2))
    }

    fn write(&self, out: &mut Vec<u8>) {
        write_u8(out, self.0);
        write_u8(out, self.1);
        write_u8(out, self.2);
        assert(out@ =~= old(out)@ + self.spec_bytes());
    }

    fn duplicate(&self) -> (r: Self) {
        *self
    }

    proof fn lemma_local(a: Seq<u8>, at: int, b: Seq<u8>, bt: int) {
        let x = a.subrange(at, at + 3);
        let y = b.subrange(bt, bt + 3);
        assert(a[at + 0] == x[0] && b[bt + 0] == y[0]);
        assert(a[at + 1] == x[1] && b[bt + 1] == y[1]);
        assert(a[at + 2] == x[2] && b[bt + 2] == y[2]);
    }

    proof fn lemma_round_trip(self) {

        assert(Self::spec_at(self.spec_bytes(), 0) == self);
    }
}

impl Frame for u32 {
    open spec fn width() -> int {
        4
    }

    open spec fn spec_at(data: Seq<u8>, at: int) -> Self {
        be_u32(data, at) as u32
    }

    open spec fn spec_bytes(self) -> Seq<u8> {
        u32_be(self)
    }

    fn exec_width() -> (w: usize) {
        4
    }

    fn read(data: &Vec<u8>, at: usize) -> (r: Result<Self, NuccError>) {
        if data.len() < 4 || at > data.len() - 4 {
            return Err(NuccError::TruncatedInput);
        }
        let f0 = match read_u32(data, at) {
            Ok(v) => v,
            Err(e) => { return Err(e); },
        };
        Ok(f0)
    }

    fn write(&self, out: &mut Vec<u8>) {
        write_u32(out, *self);
        assert(out@ =~= old(out)@ + self.spec_bytes());
    }

    fn duplicate(&self) -> (r: Self) {
        *self
    }

    proof fn lemma_local(a: Seq<u8>, at: int, b: Seq<u8>, bt: int) {
        let x = a.subrange(at, at + 4);
        let y = b.subrange(bt, bt + 4);
        assert(a[at + 0] == x[0] && b[bt + 0] == y[0]);
        assert(a[at + 1] == x[1] && b[bt + 1] == y[1]);
        assert(a[at + 2] == x[2] && b[bt + 2] == y[2]);
        assert(a[at + 3] == x[3] && b[bt + 3] == y[3]);
    }

    proof fn lemma_round_trip(self) {
        lemma_u32_round_trip(self);
        assert(Self::spec_at(self.spec_bytes(), 0) == self);
    }
}

impl Frame for i16 {
    open spec fn width() -> int {
        2
    }

    open spec fn spec_at(data: Seq<u8>, at: int) -> Self {
        be_i16(data, at) as i16
    }

    open spec fn spec_bytes(self) -> Seq<u8> {
        i16_be(self)
    }

    fn exec_width() -> (w: usize) {
        2
    }

    fn read(data: &Vec<u8>, at: usize) -> (r: Result<Self, NuccError>) {
        if data.len() < 2 || at > data.len() - 2 {
            return Err(NuccError::TruncatedInput);
        }
        let f0 = match read_i16(data, at) {
            Ok(v) => v,
            Err(e) => { return Err(e); },
        };
        Ok(f0)
    }

    fn write(&self, out: &mut Vec<u8>) {
        write_i16(out, *self);
        assert(out@ =~= old(out)@ + self.spec_bytes());
    }

    fn duplicate(&self) -> (r: Self) {
        *self
    }

    proof fn lemma_local(a: Seq<u8>, at: int, b: Seq<u8>, bt: int) {
        let x = a.subrange(at, at + 2);
        let y = b.subrange(bt, bt + 2);
        assert(a[at + 0] == x[0] && b[bt + 0] == y[0]);
        assert(a[at + 1] == x[1] && b[bt + 1] == y[1]);
    }

    proof fn lemma_round_trip(self) {
        lemma_i16_round_trip(self);
        assert(Self::spec_at(self.spec_bytes(), 0) == self);
    }
}

impl Frame for (i32, u32) {
    open spec fn width() -> int {
        8
    }

    open spec fn spec_at(data: Seq<u8>, at: int) -> Self {
        (be_i32(data, at) as i32, be_u32(data, at + 4) as u32)
    }

    open spec fn spec_bytes(self) -> Seq<u8> {
        i32_be(self.0) + u32_be(self.1)
    }

    fn exec_width() -> (w: usize) {
        8
    }

    fn read(data: &Vec<u8>, at: usize) -> (r: Result<Self, NuccError>) {
        if data.len() < 8 || at > data.len() - 8 {
            return Err(NuccError::TruncatedInput);
        }
        let f0 = match read_i32(data, at) {
            Ok(v) => v,
            Err(e) => { return Err(e); },
        };
        let f1 = match read_u32(data, at + 4) {
            Ok(v) => v,
            Err(e) => { return Err(e); },
        };
        Ok((f0, f1))
    }

    fn write(&self, out: &mut Vec<u8>) {
        write_i32(out, self.0);
        write_u32(out, self.1);
        assert(out@ =~= old(out)@ + self.spec_bytes());
    }

    fn duplicate(&self) -> (r: Self) {
        *self
    }

    proof fn lemma_local(a: Seq<u8>, at: int, b: Seq<u8>, bt: int) {
        let x = a.subrange(at, at + 8);
        let y = b.subrange(bt, bt + 8);
        assert(a[at + 0] == x[0] && b[bt + 0] == y[0]);
        assert(a[at + 1] == x[1] && b[bt + 1] == y[1]);
        assert(a[at + 2] == x[2] && b[bt + 2] == y[2]);
        assert(a[at + 3] == x[3] && b[bt + 3] == y[3]);
        assert(a[at + 4] == x[4] && b[bt + 4] == y[4]);
        assert(a[at + 5] == x[5] && b[bt + 5] == y[5]);
        assert(a[at + 6] == x[6] && b[bt + 6] == y[6]);
        assert(a[at + 7] == x[7] && b[bt + 7] == y[7]);
    }

    proof fn lemma_round_trip(self) {
        lemma_i32_round_trip(self.0);
        lemma_u32_round_trip(self.1);
        assert(Self::spec_at(self.spec_bytes(), 0) == self);
    }
}

impl Frame for (i32, Vector2) {
    open spec fn width() -> int {
        12
    }

    open spec fn spec_at(data: Seq<u8>, at: int) -> Self {
        (be_i32(data, at) as i32, Vector2(be_u32(data, at + 4) as u32, be_u32(data, at + 8) as u32))
    }

    open spec fn spec_bytes(self) -> Seq<u8> {
        i32_be(self.0) + u32_be(self.1.0) + u32_be(self.1.1)
    }

    fn exec_width() -> (w: usize) {
        12
    }

    fn read(data: &Vec<u8>, at: usize) -> (r: Result<Self, NuccError>) {
        if data.len() < 12 || at > data.len() - 12 {
            return Err(NuccError::TruncatedInput);
        }
        let f0 = match read_i32(data, at) {
            Ok(v) => v,
            Err(e) => { return Err(e); },
        };
        let f1 = match read_u32(data, at + 4) {
            Ok(v) => v,
            Err(e) => { return Err(e); },
        };
        let f2 = match read_u32(data, at + 8) {
            Ok(v) => v,
            Err(e) => { return Err(e); },
        };
        Ok((f0, Vector2(f1, f2)))
    }

    fn write(&self, out: &mut Vec<u8>) {
        write_i32(out, self.0);
        write_u32(out, self.1.0);
        write_u32(out, self.1.1);
        assert(out@ =~= old(out)@ + self.spec_bytes());
    }

    fn duplicate(&self) -> (r: Self) {
        *self
    }

    proof fn lemma_local(a: Seq<u8>, at: int, b: Seq<u8>, bt: int) {
        let x = a.subrange(at, at + 12);
        let y = b.subrange(bt, bt + 12);
        assert(a[at + 0] == x[0] && b[bt + 0] == y[0]);
        assert(a[at + 1] == x[1] && b[bt + 1] == y[1]);
        assert(a[at + 2] == x[2] && b[bt + 2] == y[2]);
        assert(a[at + 3] == x[3] && b[bt + 3] == y[3]);
        assert(a[at + 4] == x[4] && b[bt + 4] == y[4]);
        assert(a[at + 5] == x[5] && b[bt + 5] == y[5]);
        assert(a[at + 6] == x[6] && b[bt + 6] == y[6]);
        assert(a[at + 7] == x[7] && b[bt + 7] == y[7]);
        assert(a[at + 8] == x[8] && b[bt + 8] == y[8]);
        assert(a[at + 9] == x[9] && b[bt + 9] == y[9]);
        assert(a[at + 10] == x[10] && b[bt + 10] == y[10]);
        assert(a[at + 11] == x[11] && b[bt + 11] == y[11]);
    }

    proof fn lemma_round_trip(self) {
        lemma_i32_round_trip(self.0);
        lemma_u32_round_trip(self.1.0);
        lemma_u32_round_trip(self.1.1);
        assert(Self::spec_at(self.spec_bytes(), 0) == self);
    }
}

impl Frame for (i32, Vector3) {
    open spec fn width() -> int {
        16
    }

    open spec fn spec_at(data: Seq<u8>, at: int) -> Self {
        (
            be_i32(data, at) as i32,
            Vector3(
                be_u32(data, at + 4) as u32,
                be_u32(data, at + 8) as u32,
                be_u32(data, at + 12) as u32,
            ),
        )
    }

    open spec fn spec_bytes(self) -> Seq<u8> {
        i32_be(self.0) + u32_be(self.1.0) + u32_be(self.1.1) + u32_be(self.1.2)
    }

    fn exec_width() -> (w: usize) {
        16
    }

    fn read(data: &Vec<u8>, at: usize) -> (r: Result<Self, NuccError>) {
        if data.len() < 16 || at > data.len() - 16 {
            return Err(NuccError::TruncatedInput);
        }
        let f0 = match read_i32(data, at) {
            Ok(v) => v,
            Err(e) => { return Err(e); },
        };
        let f1 = match read_u32(data, at + 4) {
            Ok(v) => v,
            Err(e) => { return Err(e); },
        };
        let f2 = match read_u32(data, at + 8) {
            Ok(v) => v,
            Err(e) => { return Err(e); },
        };
        let f3 = match read_u32(data, at + 12) {
            Ok(v) => v,
            Err(e) => { return Err(e); },
        };
        Ok((f0, Vector3(f1, f2, f3)))
    }

    fn write(&self, out: &mut Vec<u8>) {
        write_i32(out, self.0);
        write_u32(out, self.1.0);
        write_u32(out, self.1.1);
        write_u32(out, self.1.2);
        assert(out@ =~= old(out)@ + self.spec_bytes());
    }

    fn duplicate(&self) -> (r: Self) {
        *self
    }

    proof fn lemma_local(a: Seq<u8>, at: int, b: Seq<u8>, bt: int) {
        let x = a.subrange(at, at + 16);
        let y = b.subrange(bt, bt + 16);
        assert(a[at + 0] == x[0] && b[bt + 0] == y[0]);
        assert(a[at + 1] == x[1] && b[bt + 1] == y[1]);
        assert(a[at + 2] == x[2] && b[bt + 2] == y[2]);
        assert(a[at + 3] == x[3] && b[bt + 3] == y[3]);
        assert(a[at + 4] == x[4] && b[bt + 4] == y[4]);
        assert(a[at + 5] == x[5] && b[bt + 5] == y[5]);
        assert(a[at + 6] == x[6] && b[bt + 6] == y[6]);
        assert(a[at + 7] == x[7] && b[bt + 7] == y[7]);
        assert(a[at + 8] == x[8] && b[bt + 8] == y[8]);
        assert(a[at + 9] == x[9] && b[bt + 9] == y[9]);
        assert(a[at + 10] == x[10] && b[bt + 10] == y[10]);
        assert(a[at + 11] == x[11] && b[bt + 11] == y[11]);
        assert(a[at + 12] == x[12] && b[bt + 12] == y[12]);
        assert(a[at + 13] == x[13] && b[bt + 13] == y[13]);
        assert(a[at + 14] == x[14] && b[bt + 14] == y[14]);
        assert(a[at + 15] == x[15] && b[bt + 15] == y[15]);
    }

    proof fn lemma_round_trip(self) {
        lemma_i32_round_trip(self.0);
        lemma_u32_round_trip(self.1.0);
        lemma_u32_round_trip(self.1.1);
        lemma_u32_round_trip(self.1.2);
        assert(Self::spec_at(self.spec_bytes(), 0) == self);
    }
}

impl Frame for (i32, Vector3Short) {
    open spec fn width() -> int {
        10
    }

    open spec fn spec_at(data: Seq<u8>, at: int) -> Self {
        (
            be_i32(data, at) as i32,
            Vector3Short(
                be_i16(data, at + 4) as i16,
                be_i16(data, at + 6) as i16,
                be_i16(data, at + 8) as i16,
            ),
        )
    }

    open spec fn spec_bytes(self) -> Seq<u8> {
        i32_be(self.0) + i16_be(self.1.0) + i16_be(self.1.1) + i16_be(self.1.2)
    }

    fn exec_width() -> (w: usize) {
        10
    }

    fn read(data: &Vec<u8>, at: usize) -> (r: Result<Self, NuccError>) {
        if data.len() < 10 || at > data.len() - 10 {
            return Err(NuccError::TruncatedInput);
        }
        let f0 = match read_i32(data, at) {
            Ok(v) => v,
            Err(e) => { return Err(e); },
        };
        let f1 = match read_i16(data, at + 4) {
            Ok(v) => v,
            Err(e) => { return Err(e); },
        };
        let f2 = match read_i16(data, at + 6) {
            Ok(v) => v,
            Err(e) => { return Err(e); },
        };
        let f3 = match read_i16(data, at + 8) {
            Ok(v) => v,
            Err(e) => { return Err(e); },
        };
        Ok((f0, Vector3Short(f1, f2, f3)))
    }

    fn write(&self, out: &mut Vec<u8>) {
        write_i32(out, self.0);
        write_i16(out, self.1.0);
        write_i16(out, self.1.1);
        write_i16(out, self.1.2);
        assert(out@ =~= old(out)@ + self.spec_bytes());
    }

    fn duplicate(&self) -> (r: Self) {
        *self
    }

    proof fn lemma_local(a: Seq<u8>, at: int, b: Seq<u8>, bt: int) {
        let x = a.subrange(at, at + 10);
        let y = b.subrange(bt, bt + 10);
        assert(a[at + 0] == x[0] && b[bt + 0] == y[0]);
        assert(a[at + 1] == x[1] && b[bt + 1] == y[1]);
        assert(a[at + 2] == x[2] && b[bt + 2] == y[2]);
        assert(a[at + 3] == x[3] && b[bt + 3] == y[3]);
        assert(a[at + 4] == x[4] && b[bt + 4] == y[4]);
        assert(a[at + 5] == x[5] && b[bt + 5] == y[5]);
        assert(a[at + 6] == x[6] && b[bt + 6] == y[6]);
        assert(a[at + 7] == x[7] && b[bt + 7] == y[7]);
        assert(a[at + 8] == x[8] && b[bt + 8] == y[8]);
        assert(a[at + 9] == x[9] && b[bt + 9] == y[9]);
    }

    proof fn lemma_round_trip(self) {
        lemma_i32_round_trip(self.0);
        lemma_i16_round_trip(self.1.0);
        lemma_i16_round_trip(self.1.1);
        lemma_i16_round_trip(self.1.2);
        assert(Self::spec_at(self.spec_bytes(), 0) == self);
    }
}

impl Frame for (i32, Quaternion) {
    open spec fn width() -> int {
        20
    }

    open spec fn spec_at(data: Seq<u8>, at: int) -> Self {
        (
            be_i32(data, at) as i32,
            Quaternion(
                be_u32(data, at + 4) as u32,
                be_u32(data, at + 8) as u32,
                be_u32(data, at + 12) as u32,
                be_u32(data, at + 16) as u32,
            ),
        )
    }

    open spec fn spec_bytes(self) -> Seq<u8> {
        i32_be(self.0) + u32_be(self.1.0) + u32_be(self.1.1) + u32_be(self.1.2) + u32_be(self.1.3)
    }

    fn exec_width() -> (w: usize) {
        20
    }

    fn read(data: &Vec<u8>, at: usize) -> (r: Result<Self, NuccError>) {
        if data.len() < 20 || at > data.len() - 20 {
            return Err(NuccError::TruncatedInput);
        }
        let f0 = match read_i32(data, at) {
            Ok(v) => v,
            Err(e) => { return Err(e); },
        };
        let f1 = match read_u32(data, at + 4) {
            Ok(v) => v,
            Err(e) => { return Err(e); },
        };
        let f2 = match read_u32(data, at + 8) {
            Ok(v) => v,
            Err(e) => { return Err(e); },
        };
        let f3 = match read_u32(data, at + 12) {
            Ok(v) => v,
            Err(e) => { return Err(e); },
        };
        let f4 = match read_u32(data, at + 16) {
            Ok(v) => v,
            Err(e) => { return Err(e); },
        };
        Ok((f0, Quaternion(f1, f2, f3, f4)))
    }

    fn write(&self, out: &mut Vec<u8>) {
        write_i32(out, self.0);
        write_u32(out, self.1.0);
        write_u32(out, self.1.1);
        write_u32(out, self.1.2);
        write_u32(out, self.1.3);
        assert(out@ =~= old(out)@ + self.spec_bytes());
    }

    fn duplicate(&self) -> (r: Self) {
        *self
    }

    proof fn lemma_local(a: Seq<u8>, at: int, b: Seq<u8>, bt: int) {
        let x = a.subrange(at, at + 20);
        let y = b.subrange(bt, bt + 20);
        assert(a[at + 0] == x[0] && b[bt + 0] == y[0]);
        assert(a[at + 1] == x[1] && b[bt + 1] == y[1]);
        assert(a[at + 2] == x[2] && b[bt + 2] == y[2]);
        assert(a[at + 3] == x[3] && b[bt + 3] == y[3]);
        assert(a[at + 4] == x[4] && b[bt + 4] == y[4]);
        assert(a[at + 5] == x[5] && b[bt + 5] == y[5]);
        assert(a[at + 6] == x[6] && b[bt + 6] == y[6]);
        assert(a[at + 7] == x[7] && b[bt + 7] == y[7]);
        assert(a[at + 8] == x[8] && b[bt + 8] == y[8]);
        assert(a[at + 9] == x[9] && b[bt + 9] == y[9]);
        assert(a[at + 10] == x[10] && b[bt + 10] == y[10]);
        assert(a[at + 11] == x[11] && b[bt + 11] == y[11]);
        assert(a[at + 12] == x[12] && b[bt + 12] == y[12]);
        assert(a[at + 13] == x[13] && b[bt + 13] == y[13]);
        assert(a[at + 14] == x[14] && b[bt + 14] == y[14]);
        assert(a[at + 15] == x[15] && b[bt + 15] == y[15]);
        assert(a[at + 16] == x[16] && b[bt + 16] == y[16]);
        assert(a[at + 17] == x[17] && b[bt + 17] == y[17]);
        assert(a[at + 18] == x[18] && b[bt + 18] == y[18]);
        assert(a[at + 19] == x[19] && b[bt + 19] == y[19]);
    }

    proof fn lemma_round_trip(self) {
        lemma_i32_round_trip(self.0);
        lemma_u32_round_trip(self.1.0);
        lemma_u32_round_trip(self.1.1);
        lemma_u32_round_trip(self.1.2);
        lemma_u32_round_trip(self.1.3);
        assert(Self::spec_at(self.spec_bytes(), 0) == self);
    }
}

/// The keyframes of a curve, by the kind of value they hold. A float is held
/// as its IEEE-754 bit pattern; a keyframe of a `Linear` kind comes with its
/// frame number.
#[derive(Debug, PartialEq, Eq)]
pub enum Keyframes {
    /// No keyframes at all.
    NoKeyframes,
    Float(Vec<u32>),
    FloatLinear(Vec<(i32, u32)>),
    Vector2(Vec<Vector2>),
    Vector2Linear(Vec<(i32, Vector2)>),
    Vector3(Vec<Vector3>),
    Vector3Short(Vec<Vector3Short>),
    Vector3Linear(Vec<(i32, Vector3)>),
    Vector3ShortLinear(Vec<(i32, Vector3Short)>),
    Quaternion(Vec<Quaternion>),
    QuaternionShort(Vec<QuaternionShort>),
    QuaternionLinear(Vec<(i32, Quaternion)>),
    RGB(Vec<RGB>),
    Opacity(Vec<i16>),
}

/// `Keyframes` as sequences.
pub enum KeyframesView {
    NoKeyframes,
    Float(Seq<u32>),
    FloatLinear(Seq<(i32, u32)>),
    Vector2(Seq<Vector2>),
    Vector2Linear(Seq<(i32, Vector2)>),
    Vector3(Seq<Vector3>),
    Vector3Short(Seq<Vector3Short>),
    Vector3Linear(Seq<(i32, Vector3)>),
    Vector3ShortLinear(Seq<(i32, Vector3Short)>),
    Quaternion(Seq<Quaternion>),
    QuaternionShort(Seq<QuaternionShort>),
    QuaternionLinear(Seq<(i32, Quaternion)>),
    RGB(Seq<RGB>),
    Opacity(Seq<i16>),
}

impl View for Keyframes {
    type V = KeyframesView;

    open spec fn view(&self) -> KeyframesView {
        match self {
            Keyframes::NoKeyframes => KeyframesView::NoKeyframes,
            Keyframes::Float(frames) => KeyframesView::Float(frames@),
            Keyframes::FloatLinear(frames) => KeyframesView::FloatLinear(frames@),
            Keyframes::Vector2(frames) => KeyframesView::Vector2(frames@),
            Keyframes::Vector2Linear(frames) => KeyframesView::Vector2Linear(frames@),
            Keyframes::Vector3(frames) => KeyframesView::Vector3(frames@),
            Keyframes::Vector3Short(frames) => KeyframesView::Vector3Short(frames@),
            Keyframes::Vector3Linear(frames) => KeyframesView::Vector3Linear(frames@),
            Keyframes::Vector3ShortLinear(frames) => KeyframesView::Vector3ShortLinear(frames@),
            Keyframes::Quaternion(frames) => KeyframesView::Quaternion(frames@),
            Keyframes::QuaternionShort(frames) => KeyframesView::QuaternionShort(frames@),
            Keyframes::QuaternionLinear(frames) => KeyframesView::QuaternionLinear(frames@),
            Keyframes::RGB(frames) => KeyframesView::RGB(frames@),
            Keyframes::Opacity(frames) => KeyframesView::Opacity(frames@),
        }
    }
}

/// How many keyframes there are.
pub open spec fn spec_keyframes_len(keyframes: KeyframesView) -> nat {
    match keyframes {
        KeyframesView::NoKeyframes => 0,
        KeyframesView::Float(frames) => frames.len(),
        KeyframesView::FloatLinear(frames) => frames.len(),
        KeyframesView::Vector2(frames) => frames.len(),
        KeyframesView::Vector2Linear(frames) => frames.len(),
        KeyframesView::Vector3(frames) => frames.len(),
        KeyframesView::Vector3Short(frames) => frames.len(),
        KeyframesView::Vector3Linear(frames) => frames.len(),
        KeyframesView::Vector3ShortLinear(frames) => frames.len(),
        KeyframesView::Quaternion(frames) => frames.len(),
        KeyframesView::QuaternionShort(frames) => frames.len(),
        KeyframesView::QuaternionLinear(frames) => frames.len(),
        KeyframesView::RGB(frames) => frames.len(),
        KeyframesView::Opacity(frames) => frames.len(),
    }
}

/// The number of keyframes as `keyframe_count` tells it: quaternions of
/// four floats and timed short vectors are not counted.
pub open spec fn spec_keyframe_count(keyframes: KeyframesView) -> nat {
    match keyframes {
        KeyframesView::Quaternion(_) => 0,
        KeyframesView::Vector3ShortLinear(_) => 0,
        _ => spec_keyframes_len(keyframes),
    }
}

/// The kinds of value that keyframes are made of.
#[derive(Debug, Clone, Copy, PartialEq, Eq, Structural)]
pub enum FrameKind {
    Float,
    FloatLinear,
    Vector2,
    Vector2Linear,
    Vector3,
    Vector3Short,
    Vector3Linear,
    Vector3ShortLinear,
    Quaternion,
    QuaternionShort,
    QuaternionLinear,
    RGB,
    Opacity,
}

/// The kind of value that each format holds; `None` for the formats
/// without a decoder.
pub open spec fn spec_kind(format: CurveFormat) -> Option<FrameKind> {
    match format {
        CurveFormat::Vector3Fixed => Some(FrameKind::Vector3),
        CurveFormat::Vector3Table => Some(FrameKind::Vector3),
        CurveFormat::Vector3TableNoInterp => Some(FrameKind::Vector3),
        CurveFormat::EulerXYZFixed => Some(FrameKind::Vector3),
        CurveFormat::Vector3Linear => Some(FrameKind::Vector3Linear),
        CurveFormat::QuatnerionLinear => Some(FrameKind::QuaternionLinear),
        CurveFormat::FloatFixed => Some(FrameKind::Float),
        CurveFormat::FloatTable => Some(FrameKind::Float),
        CurveFormat::FloatTableNoInterp => Some(FrameKind::Float),
        CurveFormat::FloatLinear => Some(FrameKind::FloatLinear),
        CurveFormat::Vector2Fixed => Some(FrameKind::Vector2),
        CurveFormat::Vector2Linear => Some(FrameKind::Vector2Linear),
        CurveFormat::OpacityShortTable => Some(FrameKind::Opacity),
        CurveFormat::OpacityShortTableNoInterp => Some(FrameKind::Opacity),
        CurveFormat::ScaleShortTable => Some(FrameKind::Vector3Short),
        CurveFormat::QuaternionShortTable => Some(FrameKind::QuaternionShort),
        CurveFormat::QuaternionShortTableNoInterp => Some(FrameKind::QuaternionShort),
        CurveFormat::ColorRGBTable => Some(FrameKind::RGB),
        CurveFormat::QuaternionTable => Some(FrameKind::Quaternion),
        CurveFormat::Vector3ShortLinear => Some(FrameKind::Vector3ShortLinear),
        CurveFormat::Vector3Bezier => None,
        CurveFormat::EulerInterpolated => None,
    }
}

/// Whether keyframes of this kind come with their frame number.
pub open spec fn spec_is_timed(kind: FrameKind) -> bool {
    match kind {
        FrameKind::FloatLinear => true,
        FrameKind::Vector2Linear => true,
        FrameKind::Vector3Linear => true,
        FrameKind::Vector3ShortLinear => true,
        FrameKind::QuaternionLinear => true,
        _ => false,
    }
}

/// The `n` keyframes of a kind that `data` holds; `TruncatedInput` when
/// the data is too short for them. Bytes behind the last keyframe are not
/// looked at.
pub open spec fn spec_keyframes_of(kind: FrameKind, n: int, data: Seq<u8>) -> Result<
    KeyframesView,
    NuccError,
> {
    match kind {
        FrameKind::Float => match spec_read_frames::<u32>(data, n) {
            Ok(frames) => Ok(KeyframesView::Float(frames)),
            Err(e) => Err(e),
        },
        FrameKind::FloatLinear => match spec_read_frames::<(i32, u32)>(data, n) {
            Ok(frames) => Ok(KeyframesView::FloatLinear(frames)),
            Err(e) => Err(e),
        },
        FrameKind::Vector2 => match spec_read_frames::<Vector2>(data, n) {
            Ok(frames) => Ok(KeyframesView::Vector2(frames)),
            Err(e) => Err(e),
        },
        FrameKind::Vector2Linear => match spec_read_frames::<(i32, Vector2)>(data, n) {
            Ok(frames) => Ok(KeyframesView::Vector2Linear(frames)),
            Err(e) => Err(e),
        },
        FrameKind::Vector3 => match spec_read_frames::<Vector3>(data, n) {
            Ok(frames) => Ok(KeyframesView::Vector3(frames)),
            Err(e) => Err(e),
        },
        FrameKind::Vector3Short => match spec_read_frames::<Vector3Short>(data, n) {
            Ok(frames) => Ok(KeyframesView::Vector3Short(frames)),
            Err(e) => Err(e),
        },
        FrameKind::Vector3Linear => match spec_read_frames::<(i32, Vector3)>(data, n) {
            Ok(frames) => Ok(KeyframesView::Vector3Linear(frames)),
            Err(e) => Err(e),
        },
        FrameKind::Vector3ShortLinear => match spec_read_frames::<(i32, Vector3Short)>(data, n) {
            Ok(frames) => Ok(KeyframesView::Vector3ShortLinear(frames)),
            Err(e) => Err(e),
        },
        FrameKind::Quaternion => match spec_read_frames::<Quaternion>(data, n) {
            Ok(frames) => Ok(KeyframesView::Quaternion(frames)),
            Err(e) => Err(e),
        },
        FrameKind::QuaternionShort => match spec_read_frames::<QuaternionShort>(data, n) {
            Ok(frames) => Ok(KeyframesView::QuaternionShort(frames)),
            Err(e) => Err(e),
        },
        FrameKind::QuaternionLinear => match spec_read_frames::<(i32, Quaternion)>(data, n) {
            Ok(frames) => Ok(KeyframesView::QuaternionLinear(frames)),
            Err(e) => Err(e),
        },
        FrameKind::RGB => match spec_read_frames::<RGB>(data, n) {
            Ok(frames) => Ok(KeyframesView::RGB(frames)),
            Err(e) => Err(e),
        },
        FrameKind::Opacity => match spec_read_frames::<i16>(data, n) {
            Ok(frames) => Ok(KeyframesView::Opacity(frames)),
            Err(e) => Err(e),
        },
    }
}

/// The keyframes that `data` holds for a curve of `n` keyframes in
/// `format`. The formats without a decoder give
/// `UnimplementedCurveFormat`.
pub open spec fn spec_keyframes(format: CurveFormat, n: int, data: Seq<u8>) -> Result<
    KeyframesView,
    NuccError,
> {
    match spec_kind(format) {
        None => Err(NuccError::UnimplementedCurveFormat),
        Some(kind) => spec_keyframes_of(kind, n, data),
    }
}

/// The format in which keyframes are written, by their kind. Keyframes of
/// the kinds `NoKeyframes` and `Vector3ShortLinear` have no encoder.
pub open spec fn spec_write_format(keyframes: KeyframesView) -> Option<CurveFormat> {
    match keyframes {
        KeyframesView::NoKeyframes => None,
        KeyframesView::Vector3ShortLinear(_) => None,
        KeyframesView::Float(_) => Some(CurveFormat::FloatTable),
        KeyframesView::FloatLinear(_) => Some(CurveFormat::FloatLinear),
        KeyframesView::Vector2(_) => Some(CurveFormat::Vector2Fixed),
        KeyframesView::Vector2Linear(_) => Some(CurveFormat::Vector2Linear),
        KeyframesView::Vector3(_) => Some(CurveFormat::Vector3Table),
        KeyframesView::Vector3Short(_) => Some(CurveFormat::ScaleShortTable),
        KeyframesView::Vector3Linear(_) => Some(CurveFormat::Vector3Linear),
        KeyframesView::Quaternion(_) => Some(CurveFormat::QuaternionTable),
        KeyframesView::QuaternionShort(_) => Some(CurveFormat::QuaternionShortTable),
        KeyframesView::QuaternionLinear(_) => Some(CurveFormat::QuatnerionLinear),
        KeyframesView::RGB(_) => Some(CurveFormat::ColorRGBTable),
        KeyframesView::Opacity(_) => Some(CurveFormat::OpacityShortTable),
    }
}

/// The bytes of the keyframes, one behind the other, without padding.
pub open spec fn spec_keyframes_bytes(keyframes: KeyframesView) -> Seq<u8> {
    match keyframes {
        KeyframesView::NoKeyframes => seq![],
        KeyframesView::Float(frames) => spec_frames_bytes(frames),
        KeyframesView::FloatLinear(frames) => spec_frames_bytes(frames),
        KeyframesView::Vector2(frames) => spec_frames_bytes(frames),
        KeyframesView::Vector2Linear(frames) => spec_frames_bytes(frames),
        KeyframesView::Vector3(frames) => spec_frames_bytes(frames),
        KeyframesView::Vector3Short(frames) => spec_frames_bytes(frames),
        KeyframesView::Vector3Linear(frames) => spec_frames_bytes(frames),
        KeyframesView::Vector3ShortLinear(frames) => spec_frames_bytes(frames),
        KeyframesView::Quaternion(frames) => spec_frames_bytes(frames),
        KeyframesView::QuaternionShort(frames) => spec_frames_bytes(frames),
        KeyframesView::QuaternionLinear(frames) => spec_frames_bytes(frames),
        KeyframesView::RGB(frames) => spec_frames_bytes(frames),
        KeyframesView::Opacity(frames) => spec_frames_bytes(frames),
    }
}

/// The `n` values stored from the start of `data` on.
pub open spec fn spec_frames<T: Frame>(data: Seq<u8>, n: int) -> Seq<T> {
    Seq::new(n as nat, |i: int| T::spec_at(data, T::width() * i))
}

/// The bytes of a run of values.
pub open spec fn spec_frames_bytes<T: Frame>(items: Seq<T>) -> Seq<u8>
    decreases items.len(),
{
    if items.len() == 0 {
        seq![]
    } else {
        spec_frames_bytes(items.drop_last()) + items.last().spec_bytes()
    }
}

/// The `n` values stored from the start of `data` on, or `TruncatedInput`
/// when they do not all lie inside the data.
#[verifier::opaque]
pub open spec fn spec_read_frames<T: Frame>(data: Seq<u8>, n: int) -> Result<Seq<T>, NuccError> {
    if !fits(data, 0, T::width() * n) {
        Err(NuccError::TruncatedInput)
    } else {
        Ok(spec_frames(data, n))
    }
}

/// Reads `n` values from the start of `data` on; `TruncatedInput` when they
/// do not all lie inside the data.
pub fn read_frames<T: Frame>(data: &Vec<u8>, n: u16) -> (r: Result<Vec<T>, NuccError>)
    ensures
        r matches Ok(v) ==> spec_read_frames::<T>(data@, n as int) == Ok::<Seq<T>, NuccError>(v@),
        r matches Err(e) ==> spec_read_frames::<T>(data@, n as int) == Err::<Seq<T>, NuccError>(e),
{
    reveal(spec_read_frames);
    let w = T::exec_width();
    assert(w * n <= 20 * 0xffff) by (nonlinear_arith)
        requires
            0 < w <= 20,
            0 <= n <= 0xffff,
    ;
    let total: usize = w * (n as usize);
    if data.len() < total {
        return Err(NuccError::TruncatedInput);
    }
    let mut frames: Vec<T> = Vec::new();
    let mut i: usize = 0;
    while i < n as usize
        invariant
            i <= n,
            w == T::width(),
            0 < w <= 20,
            total == w * n,
            total <= data.len(),
            frames@ == spec_frames::<T>(data@, i as int),
        decreases n - i,
    {
        assert(w * i + w <= w * n) by (nonlinear_arith)
            requires
                0 < w,
                0 <= i < n,
        ;
        let value = match T::read(data, w * i) {
            Ok(v) => v,
            Err(e) => { return Err(NuccError::TruncatedInput); },
        };
        frames.push(value);
        i += 1;
        assert(frames@ =~= spec_frames::<T>(data@, i as int));
    }
    Ok(frames)
}

/// Appends the bytes of a run of values.
pub fn write_frames<T: Frame>(out: &mut Vec<u8>, items: &Vec<T>)
    ensures
        final(out)@ == old(out)@ + spec_frames_bytes(items@),
{
    let mut i: usize = 0;
    while i < items.len()
        invariant
            i <= items.len(),
            out@ == old(out)@ + spec_frames_bytes(items@.subrange(0, i as int)),
        decreases items.len() - i,
    {
        items[i].write(out);
        proof {
            let next = items@.subrange(0, i + 1);
            assert(next.drop_last() =~= items@.subrange(0, i as int));
            assert(out@ =~= old(out)@ + spec_frames_bytes(next));
        }
        i += 1;
    }
    assert(items@.subrange(0, items.len() as int) =~= items@);
}

/// A copy of a run of values.
pub fn copy_frames<T: Frame>(items: &Vec<T>) -> (r: Vec<T>)
    ensures
        r@ == items@,
{
    let mut out: Vec<T> = Vec::new();
    let mut i: usize = 0;
    while i < items.len()
        invariant
            i <= items.len(),
            out@ == items@.subrange(0, i as int),
        decreases items.len() - i,
    {
        out.push(items[i].duplicate());
        i += 1;
    }
    assert(items@.subrange(0, items.len() as int) =~= items@);
    out
}

/// A run of values takes `width` bytes for each, and the values are read
/// back from its bytes whatever follows them.
pub proof fn lemma_frames_round_trip<T: Frame>(items: Seq<T>, tail: Seq<u8>)
    ensures
        spec_frames_bytes(items).len() == T::width() * items.len(),
        spec_frames::<T>(spec_frames_bytes(items) + tail, items.len() as int) == items,
    decreases items.len(),
{
    let w = T::width();
    let n = items.len() as int;
    let whole = spec_frames_bytes(items) + tail;
    if n == 0 {
        assert(spec_frames::<T>(whole, 0) =~= items);
    } else {
        let front = items.drop_last();
        let last = items.last();
        last.lemma_round_trip();
        lemma_frames_round_trip(front, last.spec_bytes() + tail);
        let front_bytes = spec_frames_bytes(front);
        assert(whole =~= front_bytes + (last.spec_bytes() + tail));
        assert(w * n == w * (n - 1) + w) by (nonlinear_arith);
        assert(whole.subrange(w * (n - 1), w * (n - 1) + w) =~= last.spec_bytes().subrange(0, w));
        T::lemma_local(whole, w * (n - 1), last.spec_bytes(), 0);
        let got = spec_frames::<T>(whole, n);
        assert forall|i: int| 0 <= i < n implies got[i] == items[i] by {
            if i < n - 1 {
                assert(spec_frames::<T>(whole, n - 1)[i] == front[i]);
            }
        }
        assert(got =~= items);
    }
}

/// A decoded curve has keyframes of a kind that its channel takes.
pub proof fn lemma_decoded_curve_suits_channel(channel: Channel, header: CurveHeader, data: Seq<u8>)
    requires
        spec_curve(channel, header, data) is Ok,
    ensures
        spec_accepts(
            spec_curve(channel, header, data)->Ok_0.channel,
            spec_curve(channel, header, data)->Ok_0.keyframes,
        ),
{
}

/// Keyframes of a kind that has an encoder take, for each keyframe, as many
/// bytes as the table gives for the format they are written in, and are
/// read back from their bytes in that format, whatever follows the bytes.
pub proof fn lemma_keyframes_round_trip(keyframes: KeyframesView, tail: Seq<u8>)
    requires
        spec_write_format(keyframes) is Some,
    ensures
        spec_size_per_frame(spec_write_format(keyframes)->Some_0) is Some,
        spec_keyframes_bytes(keyframes).len() == spec_size_per_frame(
            spec_write_format(keyframes)->Some_0,
        )->Some_0 * spec_keyframes_len(keyframes),
        spec_keyframes(
            spec_write_format(keyframes)->Some_0,
            spec_keyframes_len(keyframes) as int,
            spec_keyframes_bytes(keyframes) + tail,
        ) == Ok::<KeyframesView, NuccError>(keyframes),
{
    reveal(spec_read_frames);
    match keyframes {
        KeyframesView::Float(frames) => {
            lemma_frames_round_trip::<u32>(frames, tail);
        },
        KeyframesView::FloatLinear(frames) => {
            lemma_frames_round_trip::<(i32, u32)>(frames, tail);
        },
        KeyframesView::Vector2(frames) => {
            lemma_frames_round_trip::<Vector2>(frames, tail);
        },
        KeyframesView::Vector2Linear(frames) => {
            lemma_frames_round_trip::<(i32, Vector2)>(frames, tail);
        },
        KeyframesView::Vector3(frames) => {
            lemma_frames_round_trip::<Vector3>(frames, tail);
        },
        KeyframesView::Vector3Short(frames) => {
            lemma_frames_round_trip::<Vector3Short>(frames, tail);
        },
        KeyframesView::Vector3Linear(frames) => {
            lemma_frames_round_trip::<(i32, Vector3)>(frames, tail);
        },
        KeyframesView::Quaternion(frames) => {
            lemma_frames_round_trip::<Quaternion>(frames, tail);
        },
        KeyframesView::QuaternionShort(frames) => {
            lemma_frames_round_trip::<QuaternionShort>(frames, tail);
        },
        KeyframesView::QuaternionLinear(frames) => {
            lemma_frames_round_trip::<(i32, Quaternion)>(frames, tail);
        },
        KeyframesView::RGB(frames) => {
            lemma_frames_round_trip::<RGB>(frames, tail);
        },
        KeyframesView::Opacity(frames) => {
            lemma_frames_round_trip::<i16>(frames, tail);
        },
        _ => {},
    }
}

/// A curve is written as a byte run of the length that its header
/// announces: the keyframes, padded to a multiple of four.
pub proof fn lemma_written_curve_len(curve: CurveView, curve_index: u16)
    requires
        spec_curve_chunk(curve, curve_index) is Ok,
    ensures
        spec_curve_len(
            spec_curve_chunk(curve, curve_index)->Ok_0.0.curve_format,
            spec_curve_chunk(curve, curve_index)->Ok_0.0.frame_count as int,
        ) == Some(spec_curve_chunk(curve, curve_index)->Ok_0.1.len() as int),
{
    lemma_keyframes_round_trip(curve.keyframes, seq![]);
}

/// A curve that is written and decoded again on its channel is the same
/// curve, with the interpolation that goes with the format it was written
/// in.
pub proof fn lemma_curve_round_trip(curve: CurveView, curve_index: u16)
    requires
        spec_curve_chunk(curve, curve_index) is Ok,
    ensures
        spec_curve(
            curve.channel,
            spec_curve_chunk(curve, curve_index)->Ok_0.0,
            spec_curve_chunk(curve, curve_index)->Ok_0.1,
        ) == Ok::<CurveView, NuccError>(
            CurveView {
                interp_type: spec_interp(
                    spec_curve_chunk(curve, curve_index)->Ok_0.0.curve_format,
                )->Some_0,
                ..curve
            },
        ),
{
    let bytes = spec_keyframes_bytes(curve.keyframes);
    lemma_keyframes_round_trip(curve.keyframes, zeros(pad4(bytes.len() as int)));
}

/// What a curve drives.
#[derive(Debug, Clone, Copy, PartialEq, Eq, Structural)]
pub enum Channel {
    Location,
    Rotation,
    Scale,
    Opacity,
    Fov,
    Color,
    Property,
}

/// How values between two keyframes are found.
#[derive(Debug, Clone, Copy, PartialEq, Eq, Structural)]
pub enum InterpolationType {
    /// Values are not interpolated.
    NoInterpolation,
    Linear,
    Bezier,
}

/// The interpolation that goes with each format. `EulerInterpolated` has
/// none assigned.
pub open spec fn spec_interp(format: CurveFormat) -> Option<InterpolationType> {
    match format {
        CurveFormat::Vector3Linear
        | CurveFormat::QuatnerionLinear
        | CurveFormat::FloatLinear
        | CurveFormat::Vector2Linear
        | CurveFormat::Vector3ShortLinear => Some(InterpolationType::Linear),
        CurveFormat::Vector3Bezier => Some(InterpolationType::Bezier),
        CurveFormat::EulerInterpolated => None,
        _ => Some(InterpolationType::NoInterpolation),
    }
}

/// Which kinds of keyframes each channel takes.
pub open spec fn spec_accepts(channel: Channel, keyframes: KeyframesView) -> bool {
    match channel {
        Channel::Location | Channel::Scale => keyframes is Vector3 || keyframes is Vector3Short
            || keyframes is Vector3Linear,
        Channel::Rotation => keyframes is Vector3 || keyframes is Vector3Short
            || keyframes is Vector3Linear || keyframes is QuaternionShort
            || keyframes is QuaternionLinear,
        Channel::Opacity => keyframes is Float || keyframes is FloatLinear || keyframes is Opacity,
        Channel::Fov | Channel::Property => keyframes is Float || keyframes is FloatLinear,
        Channel::Color => keyframes is RGB,
    }
}

/// Whether `channel` takes keyframes of this kind.
pub fn accepts(channel: Channel, keyframes: &Keyframes) -> (r: bool)
    ensures
        r == spec_accepts(channel, keyframes@),
{
    match channel {
        Channel::Location | Channel::Scale => match keyframes {
            Keyframes::Vector3(_) | Keyframes::Vector3Short(_) | Keyframes::Vector3Linear(_) => true,
            _ => false,
        },
        Channel::Rotation => match keyframes {
            Keyframes::Vector3(_)
            | Keyframes::Vector3Short(_)
            | Keyframes::Vector3Linear(_)
            | Keyframes::QuaternionShort(_)
            | Keyframes::QuaternionLinear(_) => true,
            _ => false,
        },
        Channel::Opacity => match keyframes {
            Keyframes::Float(_) | Keyframes::FloatLinear(_) | Keyframes::Opacity(_) => true,
            _ => false,
        },
        Channel::Fov | Channel::Property => match keyframes {
            Keyframes::Float(_) | Keyframes::FloatLinear(_) => true,
            _ => false,
        },
        Channel::Color => match keyframes {
            Keyframes::RGB(_) => true,
            _ => false,
        },
    }
}

/// The interpolation that goes with `format`; `UnimplementedCurveFormat`
/// where none is assigned.
pub fn interp_of(format: CurveFormat) -> (r: Result<InterpolationType, NuccError>)
    ensures
        r == (match spec_interp(format) {
            Some(i) => Ok::<InterpolationType, NuccError>(i),
            None => Err(NuccError::UnimplementedCurveFormat),
        }),
{
    match format {
        CurveFormat::Vector3Linear
        | CurveFormat::QuatnerionLinear
        | CurveFormat::FloatLinear
        | CurveFormat::Vector2Linear
        | CurveFormat::Vector3ShortLinear => Ok(InterpolationType::Linear),
        CurveFormat::Vector3Bezier => Ok(InterpolationType::Bezier),
        CurveFormat::EulerInterpolated => Err(NuccError::UnimplementedCurveFormat),
        _ => Ok(InterpolationType::NoInterpolation),
    }
}

/// The keyframes of one channel.
#[derive(Debug, PartialEq, Eq)]
pub struct Curve {
    pub channel: Channel,
    pub interp_type: InterpolationType,
    keyframes: Keyframes,
}

/// A `Curve` as plain values.
pub struct CurveView {
    pub channel: Channel,
    pub interp_type: InterpolationType,
    pub keyframes: KeyframesView,
}

impl View for Curve {
    type V = CurveView;

    closed spec fn view(&self) -> CurveView {
        CurveView {
            channel: self.channel,
            interp_type: self.interp_type,
            keyframes: self.keyframes@,
        }
    }
}

/// What is needed to decode a curve: its channel, its header, its bytes.
#[derive(Debug, PartialEq, Eq)]
pub struct CurveChunkConverter(pub Channel, pub CurveHeader, pub ChunkCurve);

/// The curve that a header and a byte run stand for on `channel`. The
/// keyframes are decoded as the header's format says; keyframes of a kind
/// that the channel does not take are `InvalidKeyframes`.
pub open spec fn spec_curve(channel: Channel, header: CurveHeader, data: Seq<u8>) -> Result<
    CurveView,
    NuccError,
> {
    match spec_keyframes(header.curve_format, header.frame_count as int, data) {
        Err(e) => Err(e),
        Ok(keyframes) => {
            if !spec_accepts(channel, keyframes) {
                Err(NuccError::InvalidKeyframes)
            } else {
                Ok(
                    CurveView {
                        channel,
                        interp_type: spec_interp(header.curve_format).unwrap(),
                        keyframes,
                    },
                )
            }
        },
    }
}

/// The header and the byte run that a curve is written as, for the place
/// `curve_index` in the channel list of its entry. The keyframes must suit
/// the channel, else `InvalidKeyframes`; their kind decides the format;
/// more than 65535 keyframes are a `CountMismatch`. The byte run is padded
/// with zeros to a multiple of four.
pub open spec fn spec_curve_chunk(curve: CurveView, curve_index: u16) -> Result<
    (CurveHeader, Seq<u8>),
    NuccError,
> {
    if !spec_accepts(curve.channel, curve.keyframes) {
        Err(NuccError::InvalidKeyframes)
    } else {
        match spec_write_format(curve.keyframes) {
            None => Err(NuccError::UnimplementedCurveFormat),
            Some(curve_format) => {
                if spec_keyframes_len(curve.keyframes) > u16::MAX {
                    Err(NuccError::CountMismatch)
                } else {
                    let bytes = spec_keyframes_bytes(curve.keyframes);
                    Ok(
                        (
                            CurveHeader {
                                curve_index,
                                curve_format,
                                frame_count: spec_keyframes_len(curve.keyframes) as u16,
                                unk_size_flags: 0,
                            },
                            bytes + zeros(pad4(bytes.len() as int)),
                        ),
                    )
                }
            },
        }
    }
}

impl Curve {
    /// The channel that this curve drives.
    pub fn channel(&self) -> (r: Channel)
        ensures
            r == self@.channel,
    {
        self.channel
    }

    /// How values between two keyframes of this curve are found.
    pub fn interp_type(&self) -> (r: InterpolationType)
        ensures
            r == self@.interp_type,
    {
        self.interp_type
    }

    /// The keyframes of this curve.
    pub fn keyframes(&self) -> (r: &Keyframes)
        ensures
            r@ == self@.keyframes,
    {
        &self.keyframes
    }

    /// The keyframes of this curve, to be changed in place.
    pub fn keyframes_mut(&mut self) -> (r: &mut Keyframes)
        ensures
            r@ == old(self)@.keyframes,
            final(self)@ == (CurveView { keyframes: final(r)@, ..old(self)@ }),
    {
        &mut self.keyframes
    }

    /// Replaces the keyframes, if the channel takes keyframes of that kind;
    /// otherwise the curve stays as it is and the answer is
    /// `InvalidKeyframes`.
    pub fn set_keyframes(&mut self, keyframes: Keyframes) -> (r: Result<(), NuccError>)
        ensures
            spec_accepts(old(self)@.channel, keyframes@) ==> r is Ok && final(self)@ == (CurveView {
                keyframes: keyframes@,
                ..old(self)@
            }),
            !spec_accepts(old(self)@.channel, keyframes@) ==> r == Err::<(), NuccError>(
                NuccError::InvalidKeyframes,
            ) && final(self)@ == old(self)@,
    {
        if accepts(self.channel, &keyframes) {
            self.keyframes = keyframes;
            Ok(())
        } else {
            Err(NuccError::InvalidKeyframes)
        }
    }

    /// A curve on `channel` with these keyframes, which the channel must
    /// take.
    pub fn new(channel: Channel, interp_type: InterpolationType, keyframes: Keyframes) -> (r: Curve)
        requires
            spec_accepts(channel, keyframes@),
        ensures
            r@ == (CurveView { channel, interp_type, keyframes: keyframes@ }),
    {
        Curve { channel, interp_type, keyframes }
    }

    /// A curve on `channel` with these keyframes, or `InvalidKeyframes`
    /// when the channel does not take keyframes of that kind.
    pub fn try_new(channel: Channel, interp_type: InterpolationType, keyframes: Keyframes) -> (r:
        Result<Curve, NuccError>)
        ensures
            spec_accepts(channel, keyframes@) ==> r is Ok && r->Ok_0@ == (CurveView {
                channel,
                interp_type,
                keyframes: keyframes@,
            }),
            !spec_accepts(channel, keyframes@) ==> r is Err && r->Err_0
                == NuccError::InvalidKeyframes,
    {
        if accepts(channel, &keyframes) {
            Ok(Curve::new(channel, interp_type, keyframes))
        } else {
            Err(NuccError::InvalidKeyframes)
        }
    }

    /// Decodes the curve that `header` and `data` stand for on `channel`.
    pub fn decode(channel: Channel, header: CurveHeader, data: &Vec<u8>) -> (r: Result<
        Curve,
        NuccError,
    >)
        ensures
            r matches Ok(c) ==> spec_curve(channel, header, data@) == Ok::<CurveView, NuccError>(
                c@,
            ),
            r matches Err(e) ==> spec_curve(channel, header, data@) == Err::<CurveView, NuccError>(
                e,
            ),
            r matches Ok(c) ==> spec_accepts(c@.channel, c@.keyframes),
    {
        let keyframes = match Keyframes::read(header.curve_format, header.frame_count, data) {
            Ok(k) => k,
            Err(e) => { return Err(e); },
        };
        let interp_type = match interp_of(header.curve_format) {
            Ok(i) => i,
            Err(e) => { return Err(e); },
        };
        Curve::try_new(channel, interp_type, keyframes)
    }

    /// Decodes a curve from its header and its bytes.
    pub fn from_chunk(converter: CurveChunkConverter) -> (r: Result<Curve, NuccError>)
        ensures
            r matches Ok(c) ==> spec_curve(converter.0, converter.1, converter.2@) == Ok::<
                CurveView,
                NuccError,
            >(c@),
            r matches Err(e) ==> spec_curve(converter.0, converter.1, converter.2@) == Err::<
                CurveView,
                NuccError,
            >(e),
            r matches Ok(c) ==> spec_accepts(c@.channel, c@.keyframes),
    {
        Curve::decode(converter.0, converter.1, &converter.2.data)
    }

    /// Encodes this curve as a header and a byte run, for the place
    /// `curve_index` in the channel list of its entry.
    pub fn to_chunk(&self, curve_index: u16) -> (r: Result<(CurveHeader, ChunkCurve), NuccError>)
        ensures
            r matches Ok((header, chunk)) ==> spec_curve_chunk(self@, curve_index) == Ok::<
                (CurveHeader, Seq<u8>),
                NuccError,
            >((header, chunk@)),
            r matches Err(e) ==> spec_curve_chunk(self@, curve_index) == Err::<
                (CurveHeader, Seq<u8>),
                NuccError,
            >(e),
    {
        if !accepts(self.channel, &self.keyframes) {
            return Err(NuccError::InvalidKeyframes);
        }
        let curve_format = match self.keyframes.write_format() {
            Some(f) => f,
            None => { return Err(NuccError::UnimplementedCurveFormat); },
        };
        let count = self.keyframes.len();
        if count > 0xffff {
            return Err(NuccError::CountMismatch);
        }
        let mut data: Vec<u8> = Vec::new();
        self.keyframes.write(&mut data);
        assert(data@ =~= spec_keyframes_bytes(self@.keyframes));
        let rem: usize = data.len() % 4;
        let pad: usize = if rem == 0 {
            0
        } else {
            4 - rem
        };
        assert(pad == pad4(data.len() as int));
        write_zeros(&mut data, pad);
        Ok(
            (
                CurveHeader {
                    curve_index,
                    curve_format,
                    frame_count: count as u16,
                    unk_size_flags: 0,
                },
                ChunkCurve { data },
            ),
        )
    }

    /// A copy of this curve.
    pub fn duplicate(&self) -> (r: Curve)
        ensures
            r@ == self@,
    {
        Curve {
            channel: self.channel,
            interp_type: self.interp_type,
            keyframes: self.keyframes.duplicate(),
        }
    }
}

impl Keyframes {
    /// How many keyframes there are.
    pub fn len(&self) -> (r: usize)
        ensures
            r == spec_keyframes_len(self@),
    {
        match self {
            Keyframes::NoKeyframes => 0,
            Keyframes::Float(frames) => frames.len(),
            Keyframes::FloatLinear(frames) => frames.len(),
            Keyframes::Vector2(frames) => frames.len(),
            Keyframes::Vector2Linear(frames) => frames.len(),
            Keyframes::Vector3(frames) => frames.len(),
            Keyframes::Vector3Short(frames) => frames.len(),
            Keyframes::Vector3Linear(frames) => frames.len(),
            Keyframes::Vector3ShortLinear(frames) => frames.len(),
            Keyframes::Quaternion(frames) => frames.len(),
            Keyframes::QuaternionShort(frames) => frames.len(),
            Keyframes::QuaternionLinear(frames) => frames.len(),
            Keyframes::RGB(frames) => frames.len(),
            Keyframes::Opacity(frames) => frames.len(),
        }
    }

    /// The kind of value that `format` holds; `None` for the formats
    /// without a decoder.
    pub fn kind_of(format: CurveFormat) -> (r: Option<FrameKind>)
        ensures
            r == spec_kind(format),
    {
        match format {
            CurveFormat::Vector3Fixed => Some(FrameKind::Vector3),
            CurveFormat::Vector3Table => Some(FrameKind::Vector3),
            CurveFormat::Vector3TableNoInterp => Some(FrameKind::Vector3),
            CurveFormat::EulerXYZFixed => Some(FrameKind::Vector3),
            CurveFormat::Vector3Linear => Some(FrameKind::Vector3Linear),
            CurveFormat::QuatnerionLinear => Some(FrameKind::QuaternionLinear),
            CurveFormat::FloatFixed => Some(FrameKind::Float),
            CurveFormat::FloatTable => Some(FrameKind::Float),
            CurveFormat::FloatTableNoInterp => Some(FrameKind::Float),
            CurveFormat::FloatLinear => Some(FrameKind::FloatLinear),
            CurveFormat::Vector2Fixed => Some(FrameKind::Vector2),
            CurveFormat::Vector2Linear => Some(FrameKind::Vector2Linear),
            CurveFormat::OpacityShortTable => Some(FrameKind::Opacity),
            CurveFormat::OpacityShortTableNoInterp => Some(FrameKind::Opacity),
            CurveFormat::ScaleShortTable => Some(FrameKind::Vector3Short),
            CurveFormat::QuaternionShortTable => Some(FrameKind::QuaternionShort),
            CurveFormat::QuaternionShortTableNoInterp => Some(FrameKind::QuaternionShort),
            CurveFormat::ColorRGBTable => Some(FrameKind::RGB),
            CurveFormat::QuaternionTable => Some(FrameKind::Quaternion),
            CurveFormat::Vector3ShortLinear => Some(FrameKind::Vector3ShortLinear),
            CurveFormat::Vector3Bezier => None,
            CurveFormat::EulerInterpolated => None,
        }
    }

    /// The number of keyframes; quaternions of four floats and timed short
    /// vectors are not counted.
    pub fn keyframe_count(&self) -> (r: usize)
        ensures
            r == spec_keyframe_count(self@),
    {
        match self {
            Keyframes::Quaternion(_) => 0,
            Keyframes::Vector3ShortLinear(_) => 0,
            _ => self.len(),
        }
    }

    /// Whether keyframes of this kind come with their frame number.
    pub fn is_timed(kind: FrameKind) -> (r: bool)
        ensures
            r == spec_is_timed(kind),
    {
        match kind {
            FrameKind::FloatLinear => true,
            FrameKind::Vector2Linear => true,
            FrameKind::Vector3Linear => true,
            FrameKind::Vector3ShortLinear => true,
            FrameKind::QuaternionLinear => true,
            _ => false,
        }
    }

    /// Decodes keyframes of a kind without frame numbers.
    fn read_plain(kind: FrameKind, frame_count: u16, data: &Vec<u8>) -> (r: Result<
        Keyframes,
        NuccError,
    >)
        requires
            !spec_is_timed(kind),
        ensures
            r matches Ok(k) ==> spec_keyframes_of(kind, frame_count as int, data@) == Ok::<
                KeyframesView,
                NuccError,
            >(k@),
            r matches Err(e) ==> spec_keyframes_of(kind, frame_count as int, data@) == Err::<
                KeyframesView,
                NuccError,
            >(e),
    {
        match kind {
            FrameKind::Float => match read_frames::<u32>(data, frame_count) {
                Ok(frames) => Ok(Keyframes::Float(frames)),
                Err(e) => Err(e),
            },
            FrameKind::Vector2 => match read_frames::<Vector2>(data, frame_count) {
                Ok(frames) => Ok(Keyframes::Vector2(frames)),
                Err(e) => Err(e),
            },
            FrameKind::Vector3 => match read_frames::<Vector3>(data, frame_count) {
                Ok(frames) => Ok(Keyframes::Vector3(frames)),
                Err(e) => Err(e),
            },
            FrameKind::Vector3Short => match read_frames::<Vector3Short>(data, frame_count) {
                Ok(frames) => Ok(Keyframes::Vector3Short(frames)),
                Err(e) => Err(e),
            },
            FrameKind::Quaternion => match read_frames::<Quaternion>(data, frame_count) {
                Ok(frames) => Ok(Keyframes::Quaternion(frames)),
                Err(e) => Err(e),
            },
            FrameKind::QuaternionShort => match read_frames::<QuaternionShort>(data, frame_count) {
                Ok(frames) => Ok(Keyframes::QuaternionShort(frames)),
                Err(e) => Err(e),
            },
            FrameKind::RGB => match read_frames::<RGB>(data, frame_count) {
                Ok(frames) => Ok(Keyframes::RGB(frames)),
                Err(e) => Err(e),
            },
            FrameKind::Opacity => match read_frames::<i16>(data, frame_count) {
                Ok(frames) => Ok(Keyframes::Opacity(frames)),
                Err(e) => Err(e),
            },
            _ => Err(NuccError::TruncatedInput),
        }
    }

    /// Decodes keyframes of a kind with frame numbers.
    fn read_timed(kind: FrameKind, frame_count: u16, data: &Vec<u8>) -> (r: Result<
        Keyframes,
        NuccError,
    >)
        requires
            spec_is_timed(kind),
        ensures
            r matches Ok(k) ==> spec_keyframes_of(kind, frame_count as int, data@) == Ok::<
                KeyframesView,
                NuccError,
            >(k@),
            r matches Err(e) ==> spec_keyframes_of(kind, frame_count as int, data@) == Err::<
                KeyframesView,
                NuccError,
            >(e),
    {
        match kind {
            FrameKind::FloatLinear => match read_frames::<(i32, u32)>(data, frame_count) {
                Ok(frames) => Ok(Keyframes::FloatLinear(frames)),
                Err(e) => Err(e),
            },
            FrameKind::Vector2Linear => match read_frames::<(i32, Vector2)>(data, frame_count) {
                Ok(frames) => Ok(Keyframes::Vector2Linear(frames)),
                Err(e) => Err(e),
            },
            FrameKind::Vector3Linear => match read_frames::<(i32, Vector3)>(data, frame_count) {
                Ok(frames) => Ok(Keyframes::Vector3Linear(frames)),
                Err(e) => Err(e),
            },
            FrameKind::Vector3ShortLinear => match read_frames::<(i32, Vector3Short)>(data, frame_count) {
                Ok(frames) => Ok(Keyframes::Vector3ShortLinear(frames)),
                Err(e) => Err(e),
            },
            FrameKind::QuaternionLinear => match read_frames::<(i32, Quaternion)>(data, frame_count) {
                Ok(frames) => Ok(Keyframes::QuaternionLinear(frames)),
                Err(e) => Err(e),
            },
            _ => Err(NuccError::TruncatedInput),
        }
    }

    /// Decodes the `frame_count` keyframes of a kind that `data` holds.
    pub fn read_kind(kind: FrameKind, frame_count: u16, data: &Vec<u8>) -> (r: Result<
        Keyframes,
        NuccError,
    >)
        ensures
            r matches Ok(k) ==> spec_keyframes_of(kind, frame_count as int, data@) == Ok::<
                KeyframesView,
                NuccError,
            >(k@),
            r matches Err(e) ==> spec_keyframes_of(kind, frame_count as int, data@) == Err::<
                KeyframesView,
                NuccError,
            >(e),
    {
        if Keyframes::is_timed(kind) {
            Keyframes::read_timed(kind, frame_count, data)
        } else {
            Keyframes::read_plain(kind, frame_count, data)
        }
    }

    /// Decodes the `frame_count` keyframes that `data` holds in `format`.
    pub fn read(format: CurveFormat, frame_count: u16, data: &Vec<u8>) -> (r: Result<
        Keyframes,
        NuccError,
    >)
        ensures
            r matches Ok(k) ==> spec_keyframes(format, frame_count as int, data@) == Ok::<
                KeyframesView,
                NuccError,
            >(k@),
            r matches Err(e) ==> spec_keyframes(format, frame_count as int, data@) == Err::<
                KeyframesView,
                NuccError,
            >(e),
    {
        match Keyframes::kind_of(format) {
            None => Err(NuccError::UnimplementedCurveFormat),
            Some(kind) => Keyframes::read_kind(kind, frame_count, data),
        }
    }

    /// The format in which these keyframes are written.
    pub fn write_format(&self) -> (r: Option<CurveFormat>)
        ensures
            r == spec_write_format(self@),
    {
        match self {
            Keyframes::NoKeyframes => None,
            Keyframes::Vector3ShortLinear(_) => None,
            Keyframes::Float(_) => Some(CurveFormat::FloatTable),
            Keyframes::FloatLinear(_) => Some(CurveFormat::FloatLinear),
            Keyframes::Vector2(_) => Some(CurveFormat::Vector2Fixed),
            Keyframes::Vector2Linear(_) => Some(CurveFormat::Vector2Linear),
            Keyframes::Vector3(_) => Some(CurveFormat::Vector3Table),
            Keyframes::Vector3Short(_) => Some(CurveFormat::ScaleShortTable),
            Keyframes::Vector3Linear(_) => Some(CurveFormat::Vector3Linear),
            Keyframes::Quaternion(_) => Some(CurveFormat::QuaternionTable),
            Keyframes::QuaternionShort(_) => Some(CurveFormat::QuaternionShortTable),
            Keyframes::QuaternionLinear(_) => Some(CurveFormat::QuatnerionLinear),
            Keyframes::RGB(_) => Some(CurveFormat::ColorRGBTable),
            Keyframes::Opacity(_) => Some(CurveFormat::OpacityShortTable),
        }
    }

    /// Appends the bytes of the keyframes, without padding.
    pub fn write(&self, out: &mut Vec<u8>)
        ensures
            final(out)@ == old(out)@ + spec_keyframes_bytes(self@),
    {
        match self {
            Keyframes::NoKeyframes => {
                assert(out@ =~= old(out)@ + spec_keyframes_bytes(self@));
            },
            Keyframes::Float(frames) => write_frames(out, frames),
            Keyframes::FloatLinear(frames) => write_frames(out, frames),
            Keyframes::Vector2(frames) => write_frames(out, frames),
            Keyframes::Vector2Linear(frames) => write_frames(out, frames),
            Keyframes::Vector3(frames) => write_frames(out, frames),
            Keyframes::Vector3Short(frames) => write_frames(out, frames),
            Keyframes::Vector3Linear(frames) => write_frames(out, frames),
            Keyframes::Vector3ShortLinear(frames) => write_frames(out, frames),
            Keyframes::Quaternion(frames) => write_frames(out, frames),
            Keyframes::QuaternionShort(frames) => write_frames(out, frames),
            Keyframes::QuaternionLinear(frames) => write_frames(out, frames),
            Keyframes::RGB(frames) => write_frames(out, frames),
            Keyframes::Opacity(frames) => write_frames(out, frames),
        }
    }

    /// A copy of the keyframes.
    pub fn duplicate(&self) -> (r: Keyframes)
        ensures
            r@ == self@,
    {
        match self {
            Keyframes::NoKeyframes => Keyframes::NoKeyframes,
            Keyframes::Float(frames) => Keyframes::Float(copy_frames(frames)),
            Keyframes::FloatLinear(frames) => Keyframes::FloatLinear(copy_frames(frames)),
            Keyframes::Vector2(frames) => Keyframes::Vector2(copy_frames(frames)),
            Keyframes::Vector2Linear(frames) => Keyframes::Vector2Linear(copy_frames(frames)),
            Keyframes::Vector3(frames) => Keyframes::Vector3(copy_frames(frames)),
            Keyframes::Vector3Short(frames) => Keyframes::Vector3Short(copy_frames(frames)),
            Keyframes::Vector3Linear(frames) => Keyframes::Vector3Linear(copy_frames(frames)),
            Keyframes::Vector3ShortLinear(frames) => Keyframes::Vector3ShortLinear(copy_frames(frames)),
            Keyframes::Quaternion(frames) => Keyframes::Quaternion(copy_frames(frames)),
            Keyframes::QuaternionShort(frames) => Keyframes::QuaternionShort(copy_frames(frames)),
            Keyframes::QuaternionLinear(frames) => Keyframes::QuaternionLinear(copy_frames(frames)),
            Keyframes::RGB(frames) => Keyframes::RGB(copy_frames(frames)),
            Keyframes::Opacity(frames) => Keyframes::Opacity(copy_frames(frames)),
        }
    }
}

} // verus!
