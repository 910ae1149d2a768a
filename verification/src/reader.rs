//! A cursor over a byte buffer with the primitive decoders of the format.
//!
//! Each decoder has a mathematical counterpart on `Seq<u8>` that says which
//! value stands at a position and where the next item starts. A decoder that
//! fails leaves the cursor where it was.

use vstd::prelude::*;
use vstd::slice::{slice_subrange, slice_to_vec};
use vstd::utf8::{decode_utf8, valid_utf8};
use crate::error::{Failure, ReplayReadError};

verus! {

/// Outcome of decoding one item at a position: the item and the position
/// behind it, or the failure.
pub type Decoded<T> = Result<(T, int), Failure>;

/// A 32-bit IEEE-754 number, held as its bit pattern.
#[derive(Clone, Copy, Debug, PartialEq, Eq, Hash, Structural)]
pub struct FloatBits {
    pub bits: u32,
}

impl View for FloatBits {
    type V = FloatBits;

    open spec fn view(&self) -> FloatBits {
        *self
    }
}

/// Little-endian value of two bytes.
pub open spec fn le16(b0: u8, b1: u8) -> u16 {
    (b0 + 256 * b1) as u16
}

/// Little-endian value of four bytes.
pub open spec fn le32(b0: u8, b1: u8, b2: u8, b3: u8) -> u32 {
    (b0 + 256 * b1 + 65536 * b2 + 16777216 * b3) as u32
}

/// Little-endian value of eight bytes.
pub open spec fn le64(lo: u32, hi: u32) -> u64 {
    (lo + 4294967296 * hi) as u64
}

/// Two's complement reading of a byte.
pub open spec fn signed8(u: u8) -> i8 {
    if u < 128 {
        u as i8
    } else {
        (u - 256) as i8
    }
}

/// Two's complement reading of 16 bits.
pub open spec fn signed16(u: u16) -> i16 {
    if u < 32768 {
        u as i16
    } else {
        (u - 65536) as i16
    }
}

/// Two's complement reading of 32 bits.
pub open spec fn signed32(u: u32) -> i32 {
    if u < 2147483648 {
        u as i32
    } else {
        (u - 4294967296) as i32
    }
}

/// Whether `n` bytes stand at `pos`.
pub open spec fn has_bytes(s: Seq<u8>, pos: int, n: int) -> bool {
    0 <= pos && 0 <= n && pos + n <= s.len()
}

/// The `n` bytes at `pos`.
pub open spec fn bytes_at(s: Seq<u8>, pos: int, n: int) -> Decoded<Seq<u8>> {
    if has_bytes(s, pos, n) {
        Ok((s.subrange(pos, pos + n), pos + n))
    } else {
        Err(Failure::UnexpectedEof)
    }
}

/// The position behind `n` skipped bytes.
pub open spec fn skip_at(s: Seq<u8>, pos: int, n: int) -> Decoded<()> {
    if has_bytes(s, pos, n) {
        Ok(((), pos + n))
    } else {
        Err(Failure::UnexpectedEof)
    }
}

/// The byte at `pos`.
pub open spec fn u8_at(s: Seq<u8>, pos: int) -> Decoded<u8> {
    if has_bytes(s, pos, 1) {
        Ok((s[pos], pos + 1))
    } else {
        Err(Failure::UnexpectedEof)
    }
}

/// The little-endian `u16` at `pos`.
pub open spec fn u16_at(s: Seq<u8>, pos: int) -> Decoded<u16> {
    if has_bytes(s, pos, 2) {
        Ok((le16(s[pos], s[pos + 1]), pos + 2))
    } else {
        Err(Failure::UnexpectedEof)
    }
}

/// The little-endian `u32` at `pos`.
pub open spec fn u32_at(s: Seq<u8>, pos: int) -> Decoded<u32> {
    if has_bytes(s, pos, 4) {
        Ok((le32(s[pos], s[pos + 1], s[pos + 2], s[pos + 3]), pos + 4))
    } else {
        Err(Failure::UnexpectedEof)
    }
}

/// The little-endian `u64` at `pos`.
pub open spec fn u64_at(s: Seq<u8>, pos: int) -> Decoded<u64> {
    if has_bytes(s, pos, 8) {
        Ok(
            (
                le64(
                    le32(s[pos], s[pos + 1], s[pos + 2], s[pos + 3]),
                    le32(s[pos + 4], s[pos + 5], s[pos + 6], s[pos + 7]),
                ),
                pos + 8,
            ),
        )
    } else {
        Err(Failure::UnexpectedEof)
    }
}

/// The `i8` at `pos`.
pub open spec fn i8_at(s: Seq<u8>, pos: int) -> Decoded<i8> {
    match u8_at(s, pos) {
        Ok((u, next)) => Ok((signed8(u), next)),
        Err(e) => Err(e),
    }
}

/// The little-endian `i16` at `pos`.
pub open spec fn i16_at(s: Seq<u8>, pos: int) -> Decoded<i16> {
    match u16_at(s, pos) {
        Ok((u, next)) => Ok((signed16(u), next)),
        Err(e) => Err(e),
    }
}

/// The little-endian `i32` at `pos`.
pub open spec fn i32_at(s: Seq<u8>, pos: int) -> Decoded<i32> {
    match u32_at(s, pos) {
        Ok((u, next)) => Ok((signed32(u), next)),
        Err(e) => Err(e),
    }
}

/// The little-endian 32-bit float at `pos`.
pub open spec fn float_at(s: Seq<u8>, pos: int) -> Decoded<FloatBits> {
    match u32_at(s, pos) {
        Ok((u, next)) => Ok((FloatBits { bits: u }, next)),
        Err(e) => Err(e),
    }
}

/// The one-byte boolean at `pos`: true exactly for the byte 1.
pub open spec fn bool_at(s: Seq<u8>, pos: int) -> Decoded<bool> {
    match u8_at(s, pos) {
        Ok((u, next)) => Ok((u == 1, next)),
        Err(e) => Err(e),
    }
}

/// Index of the first zero byte at or behind `pos`; the length of `s` where
/// there is none.
pub open spec fn zero_from(s: Seq<u8>, pos: int) -> int
    decreases s.len() - pos,
{
    if pos < 0 || pos >= s.len() {
        s.len() as int
    } else if s[pos] == 0 {
        pos
    } else {
        zero_from(s, pos + 1)
    }
}

/// The bytes from `pos` up to the next zero byte, which is consumed and not
/// part of the result.
pub open spec fn cstring_at(s: Seq<u8>, pos: int) -> Decoded<Seq<u8>> {
    let z = zero_from(s, pos);
    if 0 <= pos && z < s.len() {
        Ok((s.subrange(pos, z), z + 1))
    } else {
        Err(Failure::UnexpectedEof)
    }
}

/// Whether the first `k` of `bytes` are valid UTF-8 and no longer beginning
/// of `bytes` is.
pub open spec fn valid_up_to(bytes: Seq<u8>, k: int) -> bool {
    &&& 0 <= k <= bytes.len()
    &&& valid_utf8(bytes.take(k))
    &&& forall|j: int| k < j <= bytes.len() ==> !valid_utf8(#[trigger] bytes.take(j))
}

/// The length of the longest beginning of `bytes` that is valid UTF-8.
pub open spec fn utf8_prefix(bytes: Seq<u8>) -> int {
    choose|k: int| valid_up_to(bytes, k)
}

/// The zero-terminated text at `pos`.
pub open spec fn text_at(s: Seq<u8>, pos: int) -> Decoded<Seq<char>> {
    match cstring_at(s, pos) {
        Ok((bytes, next)) => if valid_utf8(bytes) {
            Ok((decode_utf8(bytes), next))
        } else {
            Err(Failure::MalformedUtf8(bytes, utf8_prefix(bytes)))
        },
        Err(e) => Err(e),
    }
}

/// The block at `pos`: a `u32` byte count, then that many bytes.
pub open spec fn block_at(s: Seq<u8>, pos: int) -> Decoded<Seq<u8>> {
    match u32_at(s, pos) {
        Ok((n, next)) => bytes_at(s, next, n as int),
        Err(e) => Err(e),
    }
}

/// Whether an executable outcome `r`, with the cursor at `after`, is what
/// `d` describes for a decoder that started at `before`.
pub open spec fn yields<T: View>(
    r: Result<T, ReplayReadError>,
    after: int,
    d: Decoded<T::V>,
    before: int,
) -> bool {
    match d {
        Ok((v, next)) => r is Ok && r->Ok_0@ == v && after == next,
        Err(e) => r is Err && r->Err_0@ == e && after == before,
    }
}

/// `zero_from` is the least index of a zero byte.
pub proof fn lemma_zero_from(s: Seq<u8>, pos: int)
    requires
        0 <= pos <= s.len(),
    ensures
        pos <= zero_from(s, pos) <= s.len(),
        zero_from(s, pos) < s.len() ==> s[zero_from(s, pos)] == 0,
        forall|i: int| pos <= i < zero_from(s, pos) ==> s[i] != 0,
    decreases s.len() - pos,
{
    if pos < s.len() && s[pos] != 0 {
        lemma_zero_from(s, pos + 1);
    }
}

/// A zero byte with none before it is where `zero_from` points.
pub proof fn lemma_zero_from_is(s: Seq<u8>, pos: int, z: int)
    requires
        0 <= pos <= z <= s.len(),
        forall|i: int| pos <= i < z ==> s[i] != 0,
        z < s.len() ==> s[z] == 0,
    ensures
        zero_from(s, pos) == z,
    decreases z - pos,
{
    if pos < z {
        lemma_zero_from_is(s, pos + 1, z);
    }
}

/// The longest valid beginning of a byte string has one length only.
pub proof fn lemma_valid_up_to_unique(bytes: Seq<u8>, a: int, b: int)
    requires
        valid_up_to(bytes, a),
        valid_up_to(bytes, b),
    ensures
        a == b,
        utf8_prefix(bytes) == a,
{
    if a < b {
        assert(!valid_utf8(bytes.take(b)));
    }
    if b < a {
        assert(!valid_utf8(bytes.take(a)));
    }
    let c = utf8_prefix(bytes);
    if a < c {
        assert(!valid_utf8(bytes.take(c)));
    }
    if c < a {
        assert(!valid_utf8(bytes.take(a)));
    }
}

/// Conversion of bytes to text by `String::from_utf8` of std: `Ok` with the
/// text that the bytes encode exactly when they are valid UTF-8; otherwise
/// the error's `into_bytes`, which are the bytes that were handed in, and
/// the `valid_up_to` of its `utf8_error`, which std documents as the largest
/// index up to which the bytes are valid UTF-8.
#[verifier::external_body]
fn string_from_utf8(bytes: Vec<u8>) -> (r: Result<String, (Vec<u8>, usize)>)
    ensures
        match r {
            Ok(text) => valid_utf8(bytes@) && text@ == decode_utf8(bytes@),
            Err((raw, valid)) => !valid_utf8(bytes@) && raw@ == bytes@ && valid_up_to(
                bytes@,
                valid as int,
            ),
        },
{
    match String::from_utf8(bytes) {
        Ok(text) => Ok(text),
        Err(e) => {
            let valid = e.utf8_error().valid_up_to();
            Err((e.into_bytes(), valid))
        },
    }
}

/// A cursor over an input buffer.
#[derive(Clone, Copy, Debug)]
pub struct Reader<'a> {
    data: &'a [u8],
    pos: usize,
}

impl<'a> Reader<'a> {
    #[verifier::type_invariant]
    spec fn inv(self) -> bool {
        self.pos <= self.data@.len()
    }

    /// The whole input.
    pub closed spec fn input(self) -> Seq<u8> {
        self.data@
    }

    /// Number of bytes consumed so far.
    pub closed spec fn offset(self) -> int {
        self.pos as int
    }

    /// A cursor at the start of `data`.
    pub fn new(data: &'a [u8]) -> (r: Reader<'a>)
        ensures
            r.input() == data@,
            r.offset() == 0,
    {
        Reader { data, pos: 0 }
    }

    /// Number of bytes consumed so far.
    pub fn position(&self) -> (p: usize)
        ensures
            p == self.offset(),
            p <= self.input().len(),
    {
        proof {
            use_type_invariant(self);
        }
        self.pos
    }

    /// Number of bytes not yet consumed.
    pub fn remaining(&self) -> (n: usize)
        ensures
            n == self.input().len() - self.offset(),
    {
        proof {
            use_type_invariant(self);
        }
        self.data.len() - self.pos
    }

    /// The next `n` bytes, borrowed from the input.
    pub fn take(&mut self, n: usize) -> (r: Result<&'a [u8], ReplayReadError>)
        ensures
            final(self).input() == old(self).input(),
            yields(
                r,
                final(self).offset(),
                bytes_at(old(self).input(), old(self).offset(), n as int),
                old(self).offset(),
            ),
    {
        proof {
            use_type_invariant(&*self);
        }
        if n <= self.data.len() - self.pos {
            let out = slice_subrange(self.data, self.pos, self.pos + n);
            self.pos = self.pos + n;
            Ok(out)
        } else {
            Err(ReplayReadError::UnexpectedEof)
        }
    }

    /// Exactly `n` bytes, copied.
    pub fn read_bytes(&mut self, n: usize) -> (r: Result<Vec<u8>, ReplayReadError>)
        ensures
            final(self).input() == old(self).input(),
            yields(
                r,
                final(self).offset(),
                bytes_at(old(self).input(), old(self).offset(), n as int),
                old(self).offset(),
            ),
    {
        match self.take(n) {
            Ok(slice) => Ok(slice_to_vec(slice)),
            Err(e) => Err(e),
        }
    }

    /// Advances over `n` bytes.
    pub fn skip(&mut self, n: usize) -> (r: Result<(), ReplayReadError>)
        ensures
            final(self).input() == old(self).input(),
            yields(
                r,
                final(self).offset(),
                skip_at(old(self).input(), old(self).offset(), n as int),
                old(self).offset(),
            ),
    {
        match self.take(n) {
            Ok(_) => Ok(()),
            Err(e) => Err(e),
        }
    }

    /// One byte.
    pub fn read_u8(&mut self) -> (r: Result<u8, ReplayReadError>)
        ensures
            final(self).input() == old(self).input(),
            yields(
                r,
                final(self).offset(),
                u8_at(old(self).input(), old(self).offset()),
                old(self).offset(),
            ),
    {
        match self.take(1) {
            Ok(b) => Ok(b[0]),
            Err(e) => Err(e),
        }
    }

    /// A little-endian `u16`.
    pub fn read_u16(&mut self) -> (r: Result<u16, ReplayReadError>)
        ensures
            final(self).input() == old(self).input(),
            yields(
                r,
                final(self).offset(),
                u16_at(old(self).input(), old(self).offset()),
                old(self).offset(),
            ),
    {
        match self.take(2) {
            Ok(b) => {
                let v: u16 = b[0] as u16 + 256 * (b[1] as u16);
                Ok(v)
            },
            Err(e) => Err(e),
        }
    }

    /// A little-endian `u32`.
    pub fn read_u32(&mut self) -> (r: Result<u32, ReplayReadError>)
        ensures
            final(self).input() == old(self).input(),
            yields(
                r,
                final(self).offset(),
                u32_at(old(self).input(), old(self).offset()),
                old(self).offset(),
            ),
    {
        match self.take(4) {
            Ok(b) => {
                let v: u32 = b[0] as u32 + 256 * (b[1] as u32) + 65536 * (b[2] as u32) + 16777216
                    * (b[3] as u32);
                Ok(v)
            },
            Err(e) => Err(e),
        }
    }

    /// A little-endian `u64`.
    pub fn read_u64(&mut self) -> (r: Result<u64, ReplayReadError>)
        ensures
            final(self).input() == old(self).input(),
            yields(
                r,
                final(self).offset(),
                u64_at(old(self).input(), old(self).offset()),
                old(self).offset(),
            ),
    {
        match self.take(8) {
            Ok(b) => {
                let lo: u32 = b[0] as u32 + 256 * (b[1] as u32) + 65536 * (b[2] as u32) + 16777216
                    * (b[3] as u32);
                let hi: u32 = b[4] as u32 + 256 * (b[5] as u32) + 65536 * (b[6] as u32) + 16777216
                    * (b[7] as u32);
                let v: u64 = lo as u64 + 4294967296 * (hi as u64);
                Ok(v)
            },
            Err(e) => Err(e),
        }
    }

    /// One byte in two's complement.
    pub fn read_i8(&mut self) -> (r: Result<i8, ReplayReadError>)
        ensures
            final(self).input() == old(self).input(),
            yields(
                r,
                final(self).offset(),
                i8_at(old(self).input(), old(self).offset()),
                old(self).offset(),
            ),
    {
        match self.read_u8() {
            Ok(u) => {
                let v: i8 = if u < 128 {
                    u as i8
                } else {
                    (u as i16 - 256) as i8
                };
                Ok(v)
            },
            Err(e) => Err(e),
        }
    }

    /// A little-endian `i16`.
    pub fn read_i16(&mut self) -> (r: Result<i16, ReplayReadError>)
        ensures
            final(self).input() == old(self).input(),
            yields(
                r,
                final(self).offset(),
                i16_at(old(self).input(), old(self).offset()),
                old(self).offset(),
            ),
    {
        match self.read_u16() {
            Ok(u) => {
                let v: i16 = if u < 32768 {
                    u as i16
                } else {
                    (u as i32 - 65536) as i16
                };
                Ok(v)
            },
            Err(e) => Err(e),
        }
    }

    /// A little-endian `i32`.
    pub fn read_i32(&mut self) -> (r: Result<i32, ReplayReadError>)
        ensures
            final(self).input() == old(self).input(),
            yields(
                r,
                final(self).offset(),
                i32_at(old(self).input(), old(self).offset()),
                old(self).offset(),
            ),
    {
        match self.read_u32() {
            Ok(u) => {
                let v: i32 = if u < 2147483648 {
                    u as i32
                } else {
                    (u as i64 - 4294967296) as i32
                };
                Ok(v)
            },
            Err(e) => Err(e),
        }
    }

    /// A little-endian 32-bit float, as its bit pattern.
    pub fn read_f32(&mut self) -> (r: Result<FloatBits, ReplayReadError>)
        ensures
            final(self).input() == old(self).input(),
            yields(
                r,
                final(self).offset(),
                float_at(old(self).input(), old(self).offset()),
                old(self).offset(),
            ),
    {
        match self.read_u32() {
            Ok(u) => Ok(FloatBits { bits: u }),
            Err(e) => Err(e),
        }
    }

    /// A one-byte boolean.
    pub fn read_bool(&mut self) -> (r: Result<bool, ReplayReadError>)
        ensures
            final(self).input() == old(self).input(),
            yields(
                r,
                final(self).offset(),
                bool_at(old(self).input(), old(self).offset()),
                old(self).offset(),
            ),
    {
        match self.read_u8() {
            Ok(u) => Ok(u == 1),
            Err(e) => Err(e),
        }
    }

    /// The bytes up to the next zero byte, borrowed; the zero is consumed.
    pub fn take_cstring(&mut self) -> (r: Result<&'a [u8], ReplayReadError>)
        ensures
            final(self).input() == old(self).input(),
            yields(
                r,
                final(self).offset(),
                cstring_at(old(self).input(), old(self).offset()),
                old(self).offset(),
            ),
    {
        proof {
            use_type_invariant(&*self);
        }
        let start = self.pos;
        let mut end = start;
        while end < self.data.len() && self.data[end] != 0
            invariant
                start <= end <= self.data@.len(),
                forall|i: int| start <= i < end ==> self.data@[i] != 0,
            decreases self.data@.len() - end,
        {
            end = end + 1;
        }
        proof {
            lemma_zero_from_is(self.data@, start as int, end as int);
        }
        if end < self.data.len() {
            let out = slice_subrange(self.data, start, end);
            self.pos = end + 1;
            Ok(out)
        } else {
            Err(ReplayReadError::UnexpectedEof)
        }
    }

    /// The bytes up to the next zero byte, copied; the zero is consumed.
    pub fn read_cstring_bytes(&mut self) -> (r: Result<Vec<u8>, ReplayReadError>)
        ensures
            final(self).input() == old(self).input(),
            yields(
                r,
                final(self).offset(),
                cstring_at(old(self).input(), old(self).offset()),
                old(self).offset(),
            ),
    {
        match self.take_cstring() {
            Ok(slice) => Ok(slice_to_vec(slice)),
            Err(e) => Err(e),
        }
    }

    /// The zero-terminated UTF-8 text at the cursor.
    pub fn read_cstring(&mut self) -> (r: Result<String, ReplayReadError>)
        ensures
            final(self).input() == old(self).input(),
            yields(
                r,
                final(self).offset(),
                text_at(old(self).input(), old(self).offset()),
                old(self).offset(),
            ),
    {
        let mut probe = *self;
        match probe.take_cstring() {
            Ok(slice) => match string_from_utf8(slice_to_vec(slice)) {
                Ok(text) => {
                    *self = probe;
                    Ok(text)
                },
                Err((raw, valid)) => {
                    proof {
                        lemma_valid_up_to_unique(raw@, valid as int, valid as int);
                    }
                    Err(ReplayReadError::MalformedUtf8(raw, valid))
                },
            },
            Err(e) => Err(e),
        }
    }

    /// A `u32` byte count, then that many bytes, copied.
    pub fn read_length_prefixed_string(&mut self) -> (r: Result<Vec<u8>, ReplayReadError>)
        ensures
            final(self).input() == old(self).input(),
            yields(
                r,
                final(self).offset(),
                block_at(old(self).input(), old(self).offset()),
                old(self).offset(),
            ),
    {
        match self.take_block() {
            Ok(slice) => Ok(slice_to_vec(slice)),
            Err(e) => Err(e),
        }
    }

    /// A `u32` byte count, then that many bytes, borrowed.
    pub fn take_block(&mut self) -> (r: Result<&'a [u8], ReplayReadError>)
        ensures
            final(self).input() == old(self).input(),
            yields(
                r,
                final(self).offset(),
                block_at(old(self).input(), old(self).offset()),
                old(self).offset(),
            ),
    {
        let mut probe = *self;
        match probe.read_u32() {
            Ok(n) => match probe.take(n as usize) {
                Ok(slice) => {
                    *self = probe;
                    Ok(slice)
                },
                Err(e) => Err(e),
            },
            Err(e) => Err(e),
        }
    }
}

} // verus!
