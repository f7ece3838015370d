//! Big-endian primitives, alignment and NUL-terminated strings.

use vstd::prelude::*;
use vstd::utf8::encode_utf8;

use crate::error::NuccError;

verus! {

/// Number of padding bytes that bring `position` up to a multiple of
/// `align_value`.
pub open spec fn spec_align(position: int, align_value: int) -> int {
    (align_value - position % align_value) % align_value
}

/// Padding needed after `position` bytes to reach the next multiple of
/// `align_value`.
pub fn deku_align(position: u32, align_value: u32) -> (pad: u32)
    requires
        align_value > 0,
    ensures
        pad == spec_align(position as int, align_value as int),
        pad < align_value,
        (position + pad) % (align_value as int) == 0,
{
    let rem: u32 = position % align_value;
    if rem == 0 {
        proof {
            let n = align_value as int;
            assert((n - 0) % n == 0) by (nonlinear_arith)
                requires
                    n > 0,
            ;
        }
        0
    } else {
        proof {
            let p = position as int;
            let n = align_value as int;
            assert((n - rem) % n == n - rem) by (nonlinear_arith)
                requires
                    0 < rem < n,
            ;
            assert((p + (n - rem)) % n == 0) by (nonlinear_arith)
                requires
                    rem == p % n,
                    0 < rem < n,
                    n > 0,
                    p >= 0,
            ;
        }
        align_value - rem
    }
}

/// Padding that rounds a byte count up to a multiple of four.
pub open spec fn pad4(n: int) -> int {
    spec_align(n, 4)
}

/// Whether `n` bytes starting at `at` lie inside `s`.
pub open spec fn fits(s: Seq<u8>, at: int, n: int) -> bool {
    0 <= at && 0 <= n && at + n <= s.len()
}

/// The unsigned 16-bit number stored big-endian at `at`.
pub open spec fn be_u16(s: Seq<u8>, at: int) -> int {
    (s[at] as int) * 256 + (s[at + 1] as int)
}

/// The unsigned 32-bit number stored big-endian at `at`.
pub open spec fn be_u32(s: Seq<u8>, at: int) -> int {
    (s[at] as int) * 16777216 + (s[at + 1] as int) * 65536 + (s[at + 2] as int) * 256 + (s[at
        + 3] as int)
}

/// Two's complement reading of a 16-bit pattern.
pub open spec fn signed16(v: int) -> int {
    if v >= 0x8000 {
        v - 0x10000
    } else {
        v
    }
}

/// Two's complement reading of a 32-bit pattern.
pub open spec fn signed32(v: int) -> int {
    if v >= 0x8000_0000 {
        v - 0x1_0000_0000
    } else {
        v
    }
}

/// The 16-bit pattern of a signed number.
pub open spec fn unsigned16(v: int) -> int {
    if v < 0 {
        v + 0x10000
    } else {
        v
    }
}

/// The 32-bit pattern of a signed number.
pub open spec fn unsigned32(v: int) -> int {
    if v < 0 {
        v + 0x1_0000_0000
    } else {
        v
    }
}

/// The signed 16-bit number stored big-endian at `at`.
pub open spec fn be_i16(s: Seq<u8>, at: int) -> int {
    signed16(be_u16(s, at))
}

/// The signed 32-bit number stored big-endian at `at`.
pub open spec fn be_i32(s: Seq<u8>, at: int) -> int {
    signed32(be_u32(s, at))
}

/// Big-endian bytes of an unsigned 16-bit number.
pub open spec fn u16_be(v: u16) -> Seq<u8> {
    seq![(v / 256) as u8, (v % 256) as u8]
}

/// Big-endian bytes of an unsigned 32-bit number.
pub open spec fn u32_be(v: u32) -> Seq<u8> {
    seq![
        (v / 16777216) as u8,
        ((v / 65536) % 256) as u8,
        ((v / 256) % 256) as u8,
        (v % 256) as u8,
    ]
}

/// Big-endian bytes of a signed 16-bit number.
pub open spec fn i16_be(v: i16) -> Seq<u8> {
    u16_be(unsigned16(v as int) as u16)
}

/// Big-endian bytes of a signed 32-bit number.
pub open spec fn i32_be(v: i32) -> Seq<u8> {
    u32_be(unsigned32(v as int) as u32)
}

/// `n` zero bytes.
pub open spec fn zeros(n: int) -> Seq<u8> {
    Seq::new(n as nat, |i: int| 0u8)
}

/// Reading back what `u16_be` wrote gives the number again.
pub proof fn lemma_u16_round_trip(v: u16)
    ensures
        u16_be(v).len() == 2,
        be_u16(u16_be(v), 0) == v,
{
}

/// Reading back what `u32_be` wrote gives the number again.
pub proof fn lemma_u32_round_trip(v: u32)
    ensures
        u32_be(v).len() == 4,
        be_u32(u32_be(v), 0) == v,
{
}

/// Reading back what `i16_be` wrote gives the number again.
pub proof fn lemma_i16_round_trip(v: i16)
    ensures
        i16_be(v).len() == 2,
        be_i16(i16_be(v), 0) == v,
{
}

/// Reading back what `i32_be` wrote gives the number again.
pub proof fn lemma_i32_round_trip(v: i32)
    ensures
        i32_be(v).len() == 4,
        be_i32(i32_be(v), 0) == v,
{
}

/// Writing the number read at `at` reproduces the two bytes found there.
pub proof fn lemma_u16_bytes_round_trip(s: Seq<u8>, at: int)
    requires
        fits(s, at, 2),
    ensures
        0 <= be_u16(s, at) <= u16::MAX,
        u16_be(be_u16(s, at) as u16) == s.subrange(at, at + 2),
{
    assert(u16_be(be_u16(s, at) as u16) =~= s.subrange(at, at + 2));
}

/// The four base-256 digits of a number put together from four digits are
/// those digits.
proof fn lemma_digits32(b0: int, b1: int, b2: int, b3: int)
    requires
        0 <= b0 < 256,
        0 <= b1 < 256,
        0 <= b2 < 256,
        0 <= b3 < 256,
    ensures
        ({
            let v = b0 * 16777216 + b1 * 65536 + b2 * 256 + b3;
            &&& 0 <= v <= u32::MAX
            &&& v / 16777216 == b0
            &&& (v / 65536) % 256 == b1
            &&& (v / 256) % 256 == b2
            &&& v % 256 == b3
        }),
{
    let v = b0 * 16777216 + b1 * 65536 + b2 * 256 + b3;
    let hi3 = b0 * 65536 + b1 * 256 + b2;
    let hi2 = b0 * 256 + b1;
    vstd::arithmetic::div_mod::lemma_fundamental_div_mod_converse(
        v,
        16777216,
        b0,
        b1 * 65536 + b2 * 256 + b3,
    );
    vstd::arithmetic::div_mod::lemma_fundamental_div_mod_converse(v, 65536, hi2, b2 * 256 + b3);
    vstd::arithmetic::div_mod::lemma_fundamental_div_mod_converse(hi2, 256, b0, b1);
    vstd::arithmetic::div_mod::lemma_fundamental_div_mod_converse(v, 256, hi3, b3);
    vstd::arithmetic::div_mod::lemma_fundamental_div_mod_converse(hi3, 256, hi2, b2);
}

/// Writing the number read at `at` reproduces the four bytes found there.
pub proof fn lemma_u32_bytes_round_trip(s: Seq<u8>, at: int)
    requires
        fits(s, at, 4),
    ensures
        0 <= be_u32(s, at) <= u32::MAX,
        u32_be(be_u32(s, at) as u32) == s.subrange(at, at + 4),
{
    lemma_digits32(s[at] as int, s[at + 1] as int, s[at + 2] as int, s[at + 3] as int);
    let v = be_u32(s, at) as u32;
    let w = u32_be(v);
    let t = s.subrange(at, at + 4);
    assert(w.len() == 4 && t.len() == 4);
    assert(w[0] == t[0]);
    assert(w[1] == t[1]);
    assert(w[2] == t[2]);
    assert(w[3] == t[3]);
    assert(w =~= t);
}

/// Where the four bytes at a place are those of a number, that number is
/// read there.
pub proof fn lemma_u32_at(whole: Seq<u8>, at: int, v: u32)
    requires
        fits(whole, at, 4),
        whole.subrange(at, at + 4) == u32_be(v),
    ensures
        be_u32(whole, at) == v,
{
    let part = whole.subrange(at, at + 4);
    assert(part[0] == whole[at] && part[1] == whole[at + 1] && part[2] == whole[at + 2]
        && part[3] == whole[at + 3]);
    lemma_u32_round_trip(v);
}

/// Where the two bytes at a place are those of a number, that number is
/// read there.
pub proof fn lemma_u16_at(whole: Seq<u8>, at: int, v: u16)
    requires
        fits(whole, at, 2),
        whole.subrange(at, at + 2) == u16_be(v),
    ensures
        be_u16(whole, at) == v,
{
    let part = whole.subrange(at, at + 2);
    assert(part[0] == whole[at] && part[1] == whole[at + 1]);
    lemma_u16_round_trip(v);
}

/// Where the two bytes at a place are those of a signed number, that
/// number is read there.
pub proof fn lemma_i16_at(whole: Seq<u8>, at: int, v: i16)
    requires
        fits(whole, at, 2),
        whole.subrange(at, at + 2) == i16_be(v),
    ensures
        be_i16(whole, at) == v,
{
    let part = whole.subrange(at, at + 2);
    assert(part[0] == whole[at] && part[1] == whole[at + 1]);
    lemma_i16_round_trip(v);
}

/// The byte at `at`, or `TruncatedInput` past the end.
pub fn read_u8(data: &Vec<u8>, at: usize) -> (r: Result<u8, NuccError>)
    ensures
        r == (if fits(data@, at as int, 1) {
            Ok::<u8, NuccError>(data@[at as int])
        } else {
            Err(NuccError::TruncatedInput)
        }),
{
    if at < data.len() {
        Ok(data[at])
    } else {
        Err(NuccError::TruncatedInput)
    }
}

/// The big-endian `u16` at `at`, or `TruncatedInput` when fewer than two
/// bytes are left.
pub fn read_u16(data: &Vec<u8>, at: usize) -> (r: Result<u16, NuccError>)
    ensures
        r == (if fits(data@, at as int, 2) {
            Ok::<u16, NuccError>(be_u16(data@, at as int) as u16)
        } else {
            Err(NuccError::TruncatedInput)
        }),
{
    if data.len() < 2 || at > data.len() - 2 {
        Err(NuccError::TruncatedInput)
    } else {
        Ok((data[at] as u16) * 256 + (data[at + 1] as u16))
    }
}

/// The big-endian `u32` at `at`, or `TruncatedInput` when fewer than four
/// bytes are left.
pub fn read_u32(data: &Vec<u8>, at: usize) -> (r: Result<u32, NuccError>)
    ensures
        r == (if fits(data@, at as int, 4) {
            Ok::<u32, NuccError>(be_u32(data@, at as int) as u32)
        } else {
            Err(NuccError::TruncatedInput)
        }),
{
    if data.len() < 4 || at > data.len() - 4 {
        Err(NuccError::TruncatedInput)
    } else {
        Ok(
            (data[at] as u32) * 16777216 + (data[at + 1] as u32) * 65536 + (data[at + 2] as u32)
                * 256 + (data[at + 3] as u32),
        )
    }
}

/// The big-endian `i16` at `at`, or `TruncatedInput` when fewer than two
/// bytes are left.
pub fn read_i16(data: &Vec<u8>, at: usize) -> (r: Result<i16, NuccError>)
    ensures
        r == (if fits(data@, at as int, 2) {
            Ok::<i16, NuccError>(be_i16(data@, at as int) as i16)
        } else {
            Err(NuccError::TruncatedInput)
        }),
{
    match read_u16(data, at) {
        Err(e) => Err(e),
        Ok(v) => {
            if v >= 0x8000 {
                Ok((v as i32 - 0x10000) as i16)
            } else {
                Ok(v as i16)
            }
        },
    }
}

/// The big-endian `i32` at `at`, or `TruncatedInput` when fewer than four
/// bytes are left.
pub fn read_i32(data: &Vec<u8>, at: usize) -> (r: Result<i32, NuccError>)
    ensures
        r == (if fits(data@, at as int, 4) {
            Ok::<i32, NuccError>(be_i32(data@, at as int) as i32)
        } else {
            Err(NuccError::TruncatedInput)
        }),
{
    match read_u32(data, at) {
        Err(e) => Err(e),
        Ok(v) => {
            if v >= 0x8000_0000 {
                Ok((v as i64 - 0x1_0000_0000) as i32)
            } else {
                Ok(v as i32)
            }
        },
    }
}

/// The `n` bytes that start at `at`, or `TruncatedInput` when fewer are
/// left.
pub fn read_bytes(data: &Vec<u8>, at: usize, n: usize) -> (r: Result<Vec<u8>, NuccError>)
    ensures
        fits(data@, at as int, n as int) ==> r is Ok && r->Ok_0@ == data@.subrange(
            at as int,
            at + n,
        ),
        !fits(data@, at as int, n as int) ==> r == Err::<Vec<u8>, NuccError>(
            NuccError::TruncatedInput,
        ),
{
    if data.len() < n || at > data.len() - n {
        return Err(NuccError::TruncatedInput);
    }
    let mut out: Vec<u8> = Vec::new();
    let mut i: usize = 0;
    while i < n
        invariant
            i <= n,
            at + n <= data.len(),
            out@ == data@.subrange(at as int, at + i),
        decreases n - i,
    {
        out.push(data[at + i]);
        i += 1;
    }
    Ok(out)
}

/// Appends one byte.
pub fn write_u8(out: &mut Vec<u8>, v: u8)
    ensures
        final(out)@ == old(out)@.push(v),
{
    out.push(v);
}

/// Appends a `u16` in big-endian order.
pub fn write_u16(out: &mut Vec<u8>, v: u16)
    ensures
        final(out)@ == old(out)@ + u16_be(v),
{
    out.push((v / 256) as u8);
    out.push((v % 256) as u8);
    assert(out@ =~= old(out)@ + u16_be(v));
}

/// Appends a `u32` in big-endian order.
pub fn write_u32(out: &mut Vec<u8>, v: u32)
    ensures
        final(out)@ == old(out)@ + u32_be(v),
{
    out.push((v / 16777216) as u8);
    out.push(((v / 65536) % 256) as u8);
    out.push(((v / 256) % 256) as u8);
    out.push((v % 256) as u8);
    assert(out@ =~= old(out)@ + u32_be(v));
}

/// Appends an `i16` in big-endian order.
pub fn write_i16(out: &mut Vec<u8>, v: i16)
    ensures
        final(out)@ == old(out)@ + i16_be(v),
{
    let pattern: u16 = if v < 0 {
        (v as i32 + 0x10000) as u16
    } else {
        v as u16
    };
    write_u16(out, pattern);
}

/// Appends an `i32` in big-endian order.
pub fn write_i32(out: &mut Vec<u8>, v: i32)
    ensures
        final(out)@ == old(out)@ + i32_be(v),
{
    let pattern: u32 = if v < 0 {
        (v as i64 + 0x1_0000_0000) as u32
    } else {
        v as u32
    };
    write_u32(out, pattern);
}

/// Appends a run of bytes.
pub fn write_bytes(out: &mut Vec<u8>, bytes: &Vec<u8>)
    ensures
        final(out)@ == old(out)@ + bytes@,
{
    let mut i: usize = 0;
    while i < bytes.len()
        invariant
            i <= bytes.len(),
            out@ == old(out)@ + bytes@.subrange(0, i as int),
        decreases bytes.len() - i,
    {
        out.push(bytes[i]);
        i += 1;
    }
    assert(bytes@.subrange(0, bytes.len() as int) =~= bytes@);
}

/// Appends `n` zero bytes.
pub fn write_zeros(out: &mut Vec<u8>, n: usize)
    ensures
        final(out)@ == old(out)@ + zeros(n as int),
{
    let mut i: usize = 0;
    while i < n
        invariant
            i <= n,
            out@ == old(out)@ + zeros(i as int),
        decreases n - i,
    {
        out.push(0u8);
        i += 1;
        assert(out@ =~= old(out)@ + zeros(i as int));
    }
}

/// Position of the first NUL byte at or after `at`; the length of `s` when
/// there is none.
pub open spec fn nul_from(s: Seq<u8>, at: int) -> int
    decreases s.len() - at,
{
    if at < 0 || at >= s.len() {
        s.len() as int
    } else if s[at] == 0 {
        at
    } else {
        nul_from(s, at + 1)
    }
}

/// `nul_from` never looks backwards nor past the end, and nothing before the
/// position it gives is a NUL.
pub proof fn lemma_nul_from(s: Seq<u8>, at: int)
    requires
        0 <= at <= s.len(),
    ensures
        at <= nul_from(s, at) <= s.len(),
        nul_from(s, at) < s.len() ==> s[nul_from(s, at)] == 0,
        forall|i: int| at <= i < nul_from(s, at) ==> s[i] != 0,
    decreases s.len() - at,
{
    if at < s.len() && s[at] != 0 {
        lemma_nul_from(s, at + 1);
    }
}

/// Finds the first NUL byte at or after `at`.
pub fn find_nul(data: &Vec<u8>, at: usize) -> (r: usize)
    requires
        at <= data.len(),
    ensures
        r == nul_from(data@, at as int),
        at <= r <= data.len(),
{
    let mut i: usize = at;
    while i < data.len() && data[i] != 0
        invariant
            at <= i <= data.len(),
            nul_from(data@, at as int) == nul_from(data@, i as int),
        decreases data.len() - i,
    {
        i += 1;
    }
    i
}

/// Longest byte run that is handed to the code page decoder, and longest
/// text, counted in UTF-8 bytes, that is handed to the encoder, in one piece.
pub const MAX_TEXT_BYTES: usize = 0x0fff_ffff;

/// What decoding a byte run as code page 932 gives: the text, and whether a
/// malformed sequence was met on the way.
pub uninterp spec fn cp932_decoded(bytes: Seq<u8>) -> (Seq<char>, bool);

/// `codepage::to_encoding(932)` followed by `Encoding::decode` of
/// `encoding_rs`: the decoder for code page 932 (Shift-JIS) applied to the
/// whole run, with a leading byte-order mark honoured as that decoder does.
/// The result is a function of the bytes alone; it is named, not described.
/// The decoder sizes its buffer at three bytes of text per byte of input and
/// rounds that up to a power of two, which is why the run is bounded.
#[verifier::external_body]
fn decode_cp932(bytes: &Vec<u8>) -> (r: (String, bool))
    requires
        bytes.len() <= MAX_TEXT_BYTES,
    ensures
        r.0@ == cp932_decoded(bytes@).0,
        r.1 == cp932_decoded(bytes@).1,
{
    let encoding: &'static encoding_rs::Encoding = codepage::to_encoding(932).unwrap();
    let (text, _, had_errors) = encoding.decode(bytes);
    (text.into_owned(), had_errors)
}

/// What becomes of a decoded text: it is kept unless the decoder met a
/// malformed sequence.
pub open spec fn spec_checked_text(text: Seq<char>, had_errors: bool) -> Result<
    Seq<char>,
    NuccError,
> {
    if had_errors {
        Err(NuccError::StringDecode)
    } else {
        Ok(text)
    }
}

/// Accepts a decoded text, or reports `StringDecode` when the decoder met a
/// malformed sequence.
pub fn checked_text(text: String, had_errors: bool) -> (r: Result<String, NuccError>)
    ensures
        had_errors ==> r == Err::<String, NuccError>(NuccError::StringDecode),
        !had_errors ==> r == Ok::<String, NuccError>(text),
{
    if had_errors {
        Err(NuccError::StringDecode)
    } else {
        Ok(text)
    }
}

/// The text that a raw byte run stands for: the run is decoded as code page
/// 932; a run too long for the decoder, or one with a malformed sequence, is
/// a `StringDecode` error.
pub open spec fn spec_text(raw: Seq<u8>) -> Result<Seq<char>, NuccError> {
    if raw.len() > MAX_TEXT_BYTES {
        Err(NuccError::StringDecode)
    } else {
        spec_checked_text(cp932_decoded(raw).0, cp932_decoded(raw).1)
    }
}

/// Decodes a byte run as code page 932.
pub fn decode_text(raw: &Vec<u8>) -> (r: Result<String, NuccError>)
    ensures
        r is Ok <==> spec_text(raw@) is Ok,
        r matches Ok(s) ==> spec_text(raw@) == Ok::<Seq<char>, NuccError>(s@),
        r matches Err(e) ==> spec_text(raw@) == Err::<Seq<char>, NuccError>(e),
{
    if raw.len() > MAX_TEXT_BYTES {
        return Err(NuccError::StringDecode);
    }
    let (text, had_errors) = decode_cp932(raw);
    checked_text(text, had_errors)
}

/// What encoding a text as code page 932 gives: the bytes, and whether a
/// character was met that the code page does not hold.
pub uninterp spec fn cp932_encoded(text: Seq<char>) -> (Seq<u8>, bool);

/// `codepage::to_encoding(932)` followed by `Encoding::encode` of
/// `encoding_rs`: the encoder for code page 932 (Shift-JIS) applied to the
/// whole text. A character that the code page does not hold is written as
/// a numeric character reference, and the flag tells that one was met. The
/// result is a function of the text alone; it is named, not described. The
/// encoder sizes its buffer from the length of the text and rounds it up to
/// a power of two, which is why the text is bounded.
#[verifier::external_body]
fn encode_cp932(text: &String) -> (r: (Vec<u8>, bool))
    requires
        encode_utf8(text@).len() <= MAX_TEXT_BYTES,
    ensures
        r.0@ == cp932_encoded(text@).0,
        r.1 == cp932_encoded(text@).1,
{
    let encoding: &'static encoding_rs::Encoding = codepage::to_encoding(932).unwrap();
    let (bytes, _, had_unmappable) = encoding.encode(text.as_str());
    (bytes.into_owned(), had_unmappable)
}

/// Whether a text can be written as code page 932: it is not too long for
/// the encoder, and the code page holds each of its characters.
pub open spec fn spec_encodable(text: Seq<char>) -> bool {
    encode_utf8(text).len() <= MAX_TEXT_BYTES && !cp932_encoded(text).1
}

/// What becomes of encoded bytes: they are kept unless the encoder met a
/// character that the code page does not hold.
pub open spec fn spec_checked_bytes(bytes: Seq<u8>, had_unmappable: bool) -> Result<
    Seq<u8>,
    NuccError,
> {
    if had_unmappable {
        Err(NuccError::StringDecode)
    } else {
        Ok(bytes)
    }
}

/// Accepts encoded bytes, or reports `StringDecode` when the encoder met a
/// character that the code page does not hold.
pub fn checked_bytes(bytes: Vec<u8>, had_unmappable: bool) -> (r: Result<Vec<u8>, NuccError>)
    ensures
        had_unmappable ==> r == Err::<Vec<u8>, NuccError>(NuccError::StringDecode),
        !had_unmappable ==> r == Ok::<Vec<u8>, NuccError>(bytes),
{
    if had_unmappable {
        Err(NuccError::StringDecode)
    } else {
        Ok(bytes)
    }
}

/// The bytes that a text is written as: the text encoded as code page 932;
/// a text too long for the encoder, or one with a character that the code
/// page does not hold, is a `StringDecode` error.
pub open spec fn spec_text_bytes(text: Seq<char>) -> Result<Seq<u8>, NuccError> {
    if encode_utf8(text).len() > MAX_TEXT_BYTES {
        Err(NuccError::StringDecode)
    } else {
        spec_checked_bytes(cp932_encoded(text).0, cp932_encoded(text).1)
    }
}

/// Encodes a text as code page 932.
pub fn encode_text(text: &String) -> (r: Result<Vec<u8>, NuccError>)
    ensures
        r is Ok <==> spec_encodable(text@),
        r matches Ok(bytes) ==> spec_text_bytes(text@) == Ok::<Seq<u8>, NuccError>(bytes@),
        r matches Err(e) ==> spec_text_bytes(text@) == Err::<Seq<u8>, NuccError>(e),
{
    if text.as_str().as_bytes().len() > MAX_TEXT_BYTES {
        return Err(NuccError::StringDecode);
    }
    let (bytes, had_unmappable) = encode_cp932(text);
    checked_bytes(bytes, had_unmappable)
}

/// A string as it lies in a string pool: its bytes with the closing NUL.
#[derive(Debug, PartialEq, Eq)]
pub struct DekuString {
    pub data: Vec<u8>,
}

impl DekuString {
    /// The bytes without the closing NUL, if there is one.
    pub open spec fn body(self) -> Seq<u8> {
        if self.data@.len() > 0 && self.data@.last() == 0 {
            self.data@.drop_last()
        } else {
            self.data@
        }
    }

    /// Reads the string that starts at `at`: everything up to and including
    /// the next NUL. Without a NUL the string is incomplete:
    /// `TruncatedInput`.
    pub fn read(data: &Vec<u8>, at: usize) -> (r: Result<(DekuString, usize), NuccError>)
        requires
            at <= data.len(),
        ensures
            nul_from(data@, at as int) < data.len() ==> r is Ok && r->Ok_0.1 == nul_from(
                data@,
                at as int,
            ) + 1 && r->Ok_0.0.data@ == data@.subrange(at as int, r->Ok_0.1 as int),
            nul_from(data@, at as int) >= data.len() ==> r == Err::<
                (DekuString, usize),
                NuccError,
            >(NuccError::TruncatedInput),
    {
        let end = find_nul(data, at);
        if end >= data.len() {
            return Err(NuccError::TruncatedInput);
        }
        match read_bytes(data, at, end + 1 - at) {
            Ok(bytes) => Ok((DekuString { data: bytes }, end + 1)),
            Err(e) => Err(e),
        }
    }

    /// The pool form of a string: its bytes in code page 932 and a closing
    /// NUL. A string that cannot be written as code page 932 is a
    /// `StringDecode` error.
    pub fn from_string(string: String) -> (r: Result<DekuString, NuccError>)
        ensures
            r matches Ok(item) ==> spec_text_bytes(string@) is Ok && item.data@ == spec_text_bytes(
                string@,
            )->Ok_0.push(0u8),
            r matches Err(e) ==> spec_text_bytes(string@) == Err::<Seq<u8>, NuccError>(e),
    {
        match encode_text(&string) {
            Ok(mut data) => {
                data.push(0u8);
                Ok(DekuString { data })
            },
            Err(e) => Err(e),
        }
    }

    /// The text of the string: its bytes without the closing NUL, decoded as
    /// code page 932.
    pub fn into_string(self) -> (r: Result<String, NuccError>)
        ensures
            r is Ok <==> spec_text(self.body()) is Ok,
            r matches Ok(s) ==> spec_text(self.body()) == Ok::<Seq<char>, NuccError>(s@),
            r matches Err(e) ==> spec_text(self.body()) == Err::<Seq<char>, NuccError>(e),
    {
        let mut data = self.data;
        let n = data.len();
        if n > 0 && data[n - 1] == 0 {
            data.pop();
        }
        decode_text(&data)
    }
}

} // verus!
