//! Fixed-width byte codec on the byte array.
//!
//! Each numeric width (1, 2, 4 or 8 bytes) can be written to and read from a
//! byte offset. An access that does not fit before the end of the array is
//! refused with [`ArrayError::InsufficientSpace`] and changes nothing; within
//! bounds the codec cannot fail. Values are laid down least significant byte
//! first; the exact byte pattern is pinned down by [`le_bytes`] and
//! [`u64_of_le`], and [`lemma_codec_round_trip_u32`] shows that decoding
//! freshly encoded bytes yields the value back.

use vstd::prelude::*;

use crate::array::{PackedArray, PackedByteArray, PackedInt32Array, PackedInt64Array};
use crate::errors::ArrayError;

verus! {

/// The `width` least significant bytes of `v`, least significant first.
pub open spec fn le_bytes(v: u64, width: nat) -> Seq<u8>
    decreases width,
{
    if width == 0 {
        Seq::<u8>::empty()
    } else {
        seq![(v & 0xff) as u8] + le_bytes(v >> 8, (width - 1) as nat)
    }
}

/// The value whose little-endian bytes are `s` (at most eight of them).
pub open spec fn u64_of_le(s: Seq<u8>) -> u64
    decreases s.len(),
{
    if s.len() == 0 {
        0u64
    } else {
        (s[0] as u64) | (u64_of_le(s.drop_first()) << 8)
    }
}

/// The value `v` reduced to its `width` least significant bytes.
pub open spec fn low_bits(v: u64, width: nat) -> u64 {
    if width == 1 {
        v & 0xff
    } else if width == 2 {
        v & 0xffff
    } else if width == 3 {
        v & 0xff_ffff
    } else if width == 4 {
        v & 0xffff_ffff
    } else if width == 5 {
        v & 0xff_ffff_ffff
    } else if width == 6 {
        v & 0xffff_ffff_ffff
    } else if width == 7 {
        v & 0xff_ffff_ffff_ffff
    } else {
        v
    }
}

/// An encoding is exactly as long as its width.
pub proof fn lemma_le_bytes_len(v: u64, width: nat)
    ensures
        le_bytes(v, width).len() == width,
    decreases width,
{
    if width > 0 {
        lemma_le_bytes_len(v >> 8, (width - 1) as nat);
    }
}

/// Each byte of an encoding is the matching byte of the value.
pub proof fn lemma_le_bytes_index(v: u64, width: nat, k: int)
    requires
        width <= 8,
        0 <= k < width,
    ensures
        le_bytes(v, width).len() == width,
        le_bytes(v, width)[k] == (((v >> ((8 * k) as u64)) & 0xff) as u8),
    decreases width,
{
    lemma_le_bytes_len(v, width);
    if k == 0 {
        assert(v >> 0u64 == v) by (bit_vector);
    } else {
        lemma_le_bytes_index(v >> 8, (width - 1) as nat, k - 1);
        let a = (8 * (k - 1)) as u64;
        assert(a <= 48 ==> ((v >> 8) >> a) == (v >> (a + 8))) by (bit_vector);
    }
}

/// Appending one byte to a little-endian run shifts it into the next slot.
pub proof fn lemma_u64_of_le_push(t: Seq<u8>, x: u8)
    requires
        t.len() <= 7,
    ensures
        u64_of_le(t.push(x)) == u64_of_le(t) | ((x as u64) << ((8 * t.len()) as u64)),
    decreases t.len(),
{
    let x64 = x as u64;
    if t.len() == 0 {
        assert(t.push(x) =~= seq![x]);
        assert(t.push(x).drop_first() =~= Seq::<u8>::empty());
        assert(u64_of_le(Seq::<u8>::empty()) == 0);
        assert(u64_of_le(t.push(x)) == x64 | (0u64 << 8u64));
        assert(x64 | (0u64 << 8u64) == x64) by (bit_vector);
        assert(0u64 | (x64 << 0u64) == x64) by (bit_vector);
    } else {
        let t0 = t[0] as u64;
        let tdf = t.drop_first();
        assert(t.push(x).drop_first() =~= tdf.push(x));
        lemma_u64_of_le_push(tdf, x);
        let acc = u64_of_le(tdf);
        let sh = (8 * tdf.len()) as u64;
        assert(u64_of_le(t.push(x)) == t0 | (u64_of_le(tdf.push(x)) << 8));
        assert(u64_of_le(t) == t0 | (acc << 8));
        assert(sh <= 48);
        assert(sh <= 48 ==> (t0 | ((acc | (x64 << sh)) << 8)) == ((t0 | (acc << 8)) | (x64 << (sh
            + 8)))) by (bit_vector);
        assert((8 * t.len()) as u64 == sh + 8);
    }
}

/// Decoding an encoding gives the value back, reduced to the encoded width.
pub proof fn lemma_le_round_trip(v: u64, width: nat)
    requires
        1 <= width <= 8,
    ensures
        u64_of_le(le_bytes(v, width)) == low_bits(v, width),
    decreases width,
{
    let b0 = (v & 0xff) as u8;
    let rest = le_bytes(v >> 8, (width - 1) as nat);
    assert(le_bytes(v, width) == seq![b0] + rest);
    assert((seq![b0] + rest).drop_first() =~= rest);
    assert((seq![b0] + rest)[0] == b0);
    assert(u64_of_le(le_bytes(v, width)) == (b0 as u64) | (u64_of_le(rest) << 8));
    assert((b0 as u64) == (v & 0xff)) by (bit_vector)
        requires
            b0 == (v & 0xff) as u8,
    ;
    if width == 1 {
        lemma_le_bytes_len(v >> 8, 0);
        assert(rest =~= Seq::<u8>::empty());
        assert(u64_of_le(rest) == 0);
        assert(((v & 0xff) | (0u64 << 8u64)) == (v & 0xff)) by (bit_vector);
    } else {
        lemma_le_round_trip(v >> 8, (width - 1) as nat);
        if width == 2 {
            assert(((v & 0xff) | ((((v >> 8) & 0xff)) << 8)) == (v & 0xffff)) by (bit_vector);
        } else if width == 3 {
            assert(((v & 0xff) | ((((v >> 8) & 0xffff)) << 8)) == (v & 0xff_ffff)) by (bit_vector);
        } else if width == 4 {
            assert(((v & 0xff) | ((((v >> 8) & 0xff_ffff)) << 8)) == (v & 0xffff_ffff))
                by (bit_vector);
        } else if width == 5 {
            assert(((v & 0xff) | ((((v >> 8) & 0xffff_ffff)) << 8)) == (v & 0xff_ffff_ffff))
                by (bit_vector);
        } else if width == 6 {
            assert(((v & 0xff) | ((((v >> 8) & 0xff_ffff_ffff)) << 8)) == (v & 0xffff_ffff_ffff))
                by (bit_vector);
        } else if width == 7 {
            assert(((v & 0xff) | ((((v >> 8) & 0xffff_ffff_ffff)) << 8)) == (v
                & 0xff_ffff_ffff_ffff)) by (bit_vector);
        } else {
            assert(((v & 0xff) | ((((v >> 8) & 0xff_ffff_ffff_ffff)) << 8)) == v) by (bit_vector);
        }
    }
}

impl PackedByteArray {
    /// Writes the `width` least significant bytes of `v` at `offset`, least
    /// significant first; the rest of the array is untouched.
    #[verifier::loop_isolation(false)]
    pub(crate) fn write_le(&mut self, offset: usize, width: usize, v: u64)
        requires
            1 <= width <= 8,
            offset + width <= old(self)@.len(),
        ensures
            final(self)@ == old(self)@.take(offset as int) + le_bytes(v, width as nat) + old(
                self,
            )@.skip(offset as int + width as int),
    {
        let _n = self.len();
        let mut k: usize = 0;
        while k < width
            invariant
                k <= width,
                self@.len() == old(self)@.len(),
                forall|j: int|
                    0 <= j < self@.len() && !(offset <= j < offset + k) ==> self@[j] == old(
                        self,
                    )@[j],
                forall|j: int| 0 <= j < k ==> self@[offset + j] == le_bytes(v, width as nat)[j],
            decreases width - k,
        {
            let sh: u64 = 8 * (k as u64);
            let b = ((v >> sh) & 0xff) as u8;
            proof {
                lemma_le_bytes_index(v, width as nat, k as int);
            }
            self.set(offset + k, b);
            k = k + 1;
        }
        proof {
            lemma_le_bytes_len(v, width as nat);
            assert(self@ =~= old(self)@.take(offset as int) + le_bytes(v, width as nat) + old(
                self,
            )@.skip(offset as int + width as int));
        }
    }

    /// Reads `width` bytes at `offset` as one little-endian value.
    #[verifier::loop_isolation(false)]
    pub(crate) fn read_le(&self, offset: usize, width: usize) -> (r: u64)
        requires
            1 <= width <= 8,
            offset + width <= self@.len(),
        ensures
            r == u64_of_le(self@.subrange(offset as int, offset as int + width as int)),
    {
        let _n = self.len();
        let mut acc: u64 = 0;
        let mut k: usize = 0;
        proof {
            assert(self@.subrange(offset as int, offset as int) =~= Seq::<u8>::empty());
        }
        while k < width
            invariant
                k <= width,
                acc == u64_of_le(self@.subrange(offset as int, offset as int + k)),
            decreases width - k,
        {
            let b = match self.get(offset + k) {
                Some(x) => x,
                None => 0,
            };
            proof {
                let t = self@.subrange(offset as int, offset as int + k);
                assert(self@.subrange(offset as int, offset as int + k + 1) =~= t.push(b));
                lemma_u64_of_le_push(t, b);
            }
            let sh: u64 = 8 * (k as u64);
            acc = acc | ((b as u64) << sh);
            k = k + 1;
        }
        acc
    }

    /// Encodes `u8` as 1 byte at `byte_offset`.
    pub fn encode_u8(&mut self, byte_offset: usize, value: u8) -> (r: Result<(), ArrayError>)
        ensures
            r is Ok <==> byte_offset + 1 <= old(self)@.len(),
            (match r {
                Ok(()) => final(self)@ == old(self)@.take(byte_offset as int) + le_bytes(
                    value as u64,
                    1,
                ) + old(self)@.skip(byte_offset as int + 1),
                Err(e) => final(self)@ == old(self)@ && e == ArrayError::InsufficientSpace,
            }),
    {
        let n = self.len();
        if n < 1 || byte_offset > n - 1 {
            return Err(ArrayError::InsufficientSpace);
        }
        self.write_le(byte_offset, 1, value as u64);
        Ok(())
    }

    /// Decodes `u8` from 1 byte at `byte_offset`.
    pub fn decode_u8(&self, byte_offset: usize) -> (r: Result<u8, ArrayError>)
        ensures
            r is Ok <==> byte_offset + 1 <= self@.len(),
            (match r {
                Ok(x) => x == u64_of_le(
                    self@.subrange(byte_offset as int, byte_offset as int + 1),
                ) as u8,
                Err(e) => e == ArrayError::InsufficientSpace,
            }),
    {
        let n = self.len();
        if n < 1 || byte_offset > n - 1 {
            return Err(ArrayError::InsufficientSpace);
        }
        Ok(self.read_le(byte_offset, 1) as u8)
    }

    /// Encodes `i8` as 1 byte at `byte_offset`.
    pub fn encode_s8(&mut self, byte_offset: usize, value: i8) -> (r: Result<(), ArrayError>)
        ensures
            r is Ok <==> byte_offset + 1 <= old(self)@.len(),
            (match r {
                Ok(()) => final(self)@ == old(self)@.take(byte_offset as int) + le_bytes(
                    (value as u8) as u64,
                    1,
                ) + old(self)@.skip(byte_offset as int + 1),
                Err(e) => final(self)@ == old(self)@ && e == ArrayError::InsufficientSpace,
            }),
    {
        self.encode_u8(byte_offset, value as u8)
    }

    /// Decodes `i8` from 1 byte at `byte_offset`.
    pub fn decode_s8(&self, byte_offset: usize) -> (r: Result<i8, ArrayError>)
        ensures
            r is Ok <==> byte_offset + 1 <= self@.len(),
            (match r {
                Ok(x) => x == (u64_of_le(
                    self@.subrange(byte_offset as int, byte_offset as int + 1),
                ) as u8) as i8,
                Err(e) => e == ArrayError::InsufficientSpace,
            }),
    {
        match self.decode_u8(byte_offset) {
            Ok(x) => Ok(x as i8),
            Err(e) => Err(e),
        }
    }

    /// Encodes `u16` as 2 bytes at `byte_offset`.
    pub fn encode_u16(&mut self, byte_offset: usize, value: u16) -> (r: Result<(), ArrayError>)
        ensures
            r is Ok <==> byte_offset + 2 <= old(self)@.len(),
            (match r {
                Ok(()) => final(self)@ == old(self)@.take(byte_offset as int) + le_bytes(
                    value as u64,
                    2,
                ) + old(self)@.skip(byte_offset as int + 2),
                Err(e) => final(self)@ == old(self)@ && e == ArrayError::InsufficientSpace,
            }),
    {
        let n = self.len();
        if n < 2 || byte_offset > n - 2 {
            return Err(ArrayError::InsufficientSpace);
        }
        self.write_le(byte_offset, 2, value as u64);
        Ok(())
    }

    /// Decodes `u16` from 2 bytes at `byte_offset`.
    pub fn decode_u16(&self, byte_offset: usize) -> (r: Result<u16, ArrayError>)
        ensures
            r is Ok <==> byte_offset + 2 <= self@.len(),
            (match r {
                Ok(x) => x == u64_of_le(
                    self@.subrange(byte_offset as int, byte_offset as int + 2),
                ) as u16,
                Err(e) => e == ArrayError::InsufficientSpace,
            }),
    {
        let n = self.len();
        if n < 2 || byte_offset > n - 2 {
            return Err(ArrayError::InsufficientSpace);
        }
        Ok(self.read_le(byte_offset, 2) as u16)
    }

    /// Encodes `i16` as 2 bytes at `byte_offset`.
    pub fn encode_s16(&mut self, byte_offset: usize, value: i16) -> (r: Result<(), ArrayError>)
        ensures
            r is Ok <==> byte_offset + 2 <= old(self)@.len(),
            (match r {
                Ok(()) => final(self)@ == old(self)@.take(byte_offset as int) + le_bytes(
                    (value as u16) as u64,
                    2,
                ) + old(self)@.skip(byte_offset as int + 2),
                Err(e) => final(self)@ == old(self)@ && e == ArrayError::InsufficientSpace,
            }),
    {
        self.encode_u16(byte_offset, value as u16)
    }

    /// Decodes `i16` from 2 bytes at `byte_offset`.
    pub fn decode_s16(&self, byte_offset: usize) -> (r: Result<i16, ArrayError>)
        ensures
            r is Ok <==> byte_offset + 2 <= self@.len(),
            (match r {
                Ok(x) => x == (u64_of_le(
                    self@.subrange(byte_offset as int, byte_offset as int + 2),
                ) as u16) as i16,
                Err(e) => e == ArrayError::InsufficientSpace,
            }),
    {
        match self.decode_u16(byte_offset) {
            Ok(x) => Ok(x as i16),
            Err(e) => Err(e),
        }
    }

    /// Encodes `u32` as 4 bytes at `byte_offset`.
    pub fn encode_u32(&mut self, byte_offset: usize, value: u32) -> (r: Result<(), ArrayError>)
        ensures
            r is Ok <==> byte_offset + 4 <= old(self)@.len(),
            (match r {
                Ok(()) => final(self)@ == old(self)@.take(byte_offset as int) + le_bytes(
                    value as u64,
                    4,
                ) + old(self)@.skip(byte_offset as int + 4),
                Err(e) => final(self)@ == old(self)@ && e == ArrayError::InsufficientSpace,
            }),
    {
        let n = self.len();
        if n < 4 || byte_offset > n - 4 {
            return Err(ArrayError::InsufficientSpace);
        }
        self.write_le(byte_offset, 4, value as u64);
        Ok(())
    }

    /// Decodes `u32` from 4 bytes at `byte_offset`.
    pub fn decode_u32(&self, byte_offset: usize) -> (r: Result<u32, ArrayError>)
        ensures
            r is Ok <==> byte_offset + 4 <= self@.len(),
            (match r {
                Ok(x) => x == u64_of_le(
                    self@.subrange(byte_offset as int, byte_offset as int + 4),
                ) as u32,
                Err(e) => e == ArrayError::InsufficientSpace,
            }),
    {
        let n = self.len();
        if n < 4 || byte_offset > n - 4 {
            return Err(ArrayError::InsufficientSpace);
        }
        Ok(self.read_le(byte_offset, 4) as u32)
    }

    /// Encodes `i32` as 4 bytes at `byte_offset`.
    pub fn encode_s32(&mut self, byte_offset: usize, value: i32) -> (r: Result<(), ArrayError>)
        ensures
            r is Ok <==> byte_offset + 4 <= old(self)@.len(),
            (match r {
                Ok(()) => final(self)@ == old(self)@.take(byte_offset as int) + le_bytes(
                    (value as u32) as u64,
                    4,
                ) + old(self)@.skip(byte_offset as int + 4),
                Err(e) => final(self)@ == old(self)@ && e == ArrayError::InsufficientSpace,
            }),
    {
        self.encode_u32(byte_offset, value as u32)
    }

    /// Decodes `i32` from 4 bytes at `byte_offset`.
    pub fn decode_s32(&self, byte_offset: usize) -> (r: Result<i32, ArrayError>)
        ensures
            r is Ok <==> byte_offset + 4 <= self@.len(),
            (match r {
                Ok(x) => x == (u64_of_le(
                    self@.subrange(byte_offset as int, byte_offset as int + 4),
                ) as u32) as i32,
                Err(e) => e == ArrayError::InsufficientSpace,
            }),
    {
        match self.decode_u32(byte_offset) {
            Ok(x) => Ok(x as i32),
            Err(e) => Err(e),
        }
    }

    /// Encodes `u64` as 8 bytes at `byte_offset`.
    pub fn encode_u64(&mut self, byte_offset: usize, value: u64) -> (r: Result<(), ArrayError>)
        ensures
            r is Ok <==> byte_offset + 8 <= old(self)@.len(),
            (match r {
                Ok(()) => final(self)@ == old(self)@.take(byte_offset as int) + le_bytes(value, 8)
                    + old(self)@.skip(byte_offset as int + 8),
                Err(e) => final(self)@ == old(self)@ && e == ArrayError::InsufficientSpace,
            }),
    {
        let n = self.len();
        if n < 8 || byte_offset > n - 8 {
            return Err(ArrayError::InsufficientSpace);
        }
        self.write_le(byte_offset, 8, value);
        Ok(())
    }

    /// Decodes `u64` from 8 bytes at `byte_offset`.
    pub fn decode_u64(&self, byte_offset: usize) -> (r: Result<u64, ArrayError>)
        ensures
            r is Ok <==> byte_offset + 8 <= self@.len(),
            (match r {
                Ok(x) => x == u64_of_le(
                    self@.subrange(byte_offset as int, byte_offset as int + 8),
                ),
                Err(e) => e == ArrayError::InsufficientSpace,
            }),
    {
        let n = self.len();
        if n < 8 || byte_offset > n - 8 {
            return Err(ArrayError::InsufficientSpace);
        }
        Ok(self.read_le(byte_offset, 8))
    }

    /// Encodes `i64` as 8 bytes at `byte_offset`.
    pub fn encode_s64(&mut self, byte_offset: usize, value: i64) -> (r: Result<(), ArrayError>)
        ensures
            r is Ok <==> byte_offset + 8 <= old(self)@.len(),
            (match r {
                Ok(()) => final(self)@ == old(self)@.take(byte_offset as int) + le_bytes(
                    value as u64,
                    8,
                ) + old(self)@.skip(byte_offset as int + 8),
                Err(e) => final(self)@ == old(self)@ && e == ArrayError::InsufficientSpace,
            }),
    {
        self.encode_u64(byte_offset, value as u64)
    }

    /// Decodes `i64` from 8 bytes at `byte_offset`.
    pub fn decode_s64(&self, byte_offset: usize) -> (r: Result<i64, ArrayError>)
        ensures
            r is Ok <==> byte_offset + 8 <= self@.len(),
            (match r {
                Ok(x) => x == u64_of_le(
                    self@.subrange(byte_offset as int, byte_offset as int + 8),
                ) as i64,
                Err(e) => e == ArrayError::InsufficientSpace,
            }),
    {
        match self.decode_u64(byte_offset) {
            Ok(x) => Ok(x as i64),
            Err(e) => Err(e),
        }
    }
}


/// The 32-bit integers whose little-endian byte blocks tile `s`.
pub open spec fn int32s_of_bytes(s: Seq<u8>) -> Seq<i32> {
    Seq::new(s.len() / 4, |i: int| (u64_of_le(s.subrange(4 * i, 4 * i + 4)) as u32) as i32)
}

/// The 64-bit integers whose little-endian byte blocks tile `s`.
pub open spec fn int64s_of_bytes(s: Seq<u8>) -> Seq<i64> {
    Seq::new(s.len() / 8, |i: int| u64_of_le(s.subrange(8 * i, 8 * i + 8)) as i64)
}

/// The little-endian bytes of a sequence of 32-bit integers, four per value.
pub open spec fn bytes_of_int32s(s: Seq<i32>) -> Seq<u8> {
    Seq::new(4 * s.len(), |i: int| le_bytes((s[i / 4] as u32) as u64, 4)[i % 4])
}

/// The little-endian bytes of a sequence of 64-bit integers, eight per value.
pub open spec fn bytes_of_int64s(s: Seq<i64>) -> Seq<u8> {
    Seq::new(8 * s.len(), |i: int| le_bytes(s[i / 8] as u64, 8)[i % 8])
}

impl PackedByteArray {
    /// The data converted to 32-bit integers, each block of four bytes one
    /// value; empty when the length is not a multiple of four.
    #[verifier::loop_isolation(false)]
    pub fn to_int32_array(&self) -> (r: PackedInt32Array)
        ensures
            self@.len() % 4 == 0 ==> r@ == int32s_of_bytes(self@),
            self@.len() % 4 != 0 ==> r@ == Seq::<i32>::empty(),
    {
        let n = self.len();
        let mut out = PackedArray::<i32>::new();
        if n % 4 != 0 {
            return out;
        }
        let count = n / 4;
        let mut i: usize = 0;
        while i < count
            invariant
                i <= count,
                out@.len() == i,
                forall|j: int| 0 <= j < i ==> out@[j] == int32s_of_bytes(self@)[j],
            decreases count - i,
        {
            let x = self.read_le(4 * i, 4);
            out.push((x as u32) as i32);
            i = i + 1;
        }
        proof {
            assert(out@ =~= int32s_of_bytes(self@));
        }
        out
    }

    /// The data converted to 64-bit integers, each block of eight bytes one
    /// value; empty when the length is not a multiple of eight.
    #[verifier::loop_isolation(false)]
    pub fn to_int64_array(&self) -> (r: PackedInt64Array)
        ensures
            self@.len() % 8 == 0 ==> r@ == int64s_of_bytes(self@),
            self@.len() % 8 != 0 ==> r@ == Seq::<i64>::empty(),
    {
        let n = self.len();
        let mut out = PackedArray::<i64>::new();
        if n % 8 != 0 {
            return out;
        }
        let count = n / 8;
        let mut i: usize = 0;
        while i < count
            invariant
                i <= count,
                out@.len() == i,
                forall|j: int| 0 <= j < i ==> out@[j] == int64s_of_bytes(self@)[j],
            decreases count - i,
        {
            let x = self.read_le(8 * i, 8);
            out.push(x as i64);
            i = i + 1;
        }
        proof {
            assert(out@ =~= int64s_of_bytes(self@));
        }
        out
    }
}

impl PackedInt32Array {
    /// Each value encoded as four little-endian bytes. The length bound is
    /// the host's size limit on the resulting byte array.
    #[verifier::loop_isolation(false)]
    pub fn to_byte_array(&self) -> (r: PackedByteArray)
        requires
            4 * self@.len() <= i64::MAX,
        ensures
            r@ == bytes_of_int32s(self@),
    {
        let n = self.len();
        let mut out = PackedArray::<u8>::new();
        let mut i: usize = 0;
        while i < n
            invariant
                i <= n,
                out@.len() == 4 * i,
                forall|j: int| 0 <= j < out@.len() ==> out@[j] == bytes_of_int32s(self@)[j],
            decreases n - i,
        {
            let v = match self.get(i) {
                Some(x) => x,
                None => 0,
            };
            let w: u64 = (v as u32) as u64;
            let mut k: usize = 0;
            while k < 4
                invariant
                    k <= 4,
                    i < n,
                    out@.len() == 4 * i + k,
                    v == self@[i as int],
                    w == ((self@[i as int] as u32) as u64),
                    forall|j: int| 0 <= j < out@.len() ==> out@[j] == bytes_of_int32s(self@)[j],
                decreases 4 - k,
            {
                let sh: u64 = 8 * (k as u64);
                let b = ((w >> sh) & 0xff) as u8;
                proof {
                    lemma_le_bytes_index(w, 4, k as int);
                    assert((4 * i + k) / 4 == i && (4 * i + k) % 4 == k);
                    assert(bytes_of_int32s(self@)[4 * i + k] == le_bytes(w, 4)[k as int]);
                }
                out.push(b);
                k = k + 1;
            }
            i = i + 1;
        }
        proof {
            assert(out@ =~= bytes_of_int32s(self@));
        }
        out
    }
}

impl PackedInt64Array {
    /// Each value encoded as eight little-endian bytes. The length bound is
    /// the host's size limit on the resulting byte array.
    #[verifier::loop_isolation(false)]
    pub fn to_byte_array(&self) -> (r: PackedByteArray)
        requires
            8 * self@.len() <= i64::MAX,
        ensures
            r@ == bytes_of_int64s(self@),
    {
        let n = self.len();
        let mut out = PackedArray::<u8>::new();
        let mut i: usize = 0;
        while i < n
            invariant
                i <= n,
                out@.len() == 8 * i,
                forall|j: int| 0 <= j < out@.len() ==> out@[j] == bytes_of_int64s(self@)[j],
            decreases n - i,
        {
            let v = match self.get(i) {
                Some(x) => x,
                None => 0,
            };
            let w: u64 = v as u64;
            let mut k: usize = 0;
            while k < 8
                invariant
                    k <= 8,
                    i < n,
                    out@.len() == 8 * i + k,
                    v == self@[i as int],
                    w == (self@[i as int] as u64),
                    forall|j: int| 0 <= j < out@.len() ==> out@[j] == bytes_of_int64s(self@)[j],
                decreases 8 - k,
            {
                let sh: u64 = 8 * (k as u64);
                let b = ((w >> sh) & 0xff) as u8;
                proof {
                    lemma_le_bytes_index(w, 8, k as int);
                    assert((8 * i + k) / 8 == i && (8 * i + k) % 8 == k);
                    assert(bytes_of_int64s(self@)[8 * i + k] == le_bytes(w, 8)[k as int]);
                }
                out.push(b);
                k = k + 1;
            }
            i = i + 1;
        }
        proof {
            assert(out@ =~= bytes_of_int64s(self@));
        }
        out
    }
}

/// Byte-codec round trip: decoding four bytes freshly written by the 32-bit
/// encoder yields the encoded value back, at any offset of any buffer with
/// room for them.
pub proof fn lemma_codec_round_trip_u32(s: Seq<u8>, offset: int, value: u32)
    requires
        0 <= offset,
        offset + 4 <= s.len(),
    ensures
        ({
            let written = s.take(offset) + le_bytes(value as u64, 4) + s.skip(offset + 4);
            u64_of_le(written.subrange(offset, offset + 4)) as u32 == value
        }),
{
    let written = s.take(offset) + le_bytes(value as u64, 4) + s.skip(offset + 4);
    lemma_le_bytes_len(value as u64, 4);
    assert(written.subrange(offset, offset + 4) =~= le_bytes(value as u64, 4));
    lemma_le_round_trip(value as u64, 4);
    assert((((value as u64) & 0xffff_ffff) as u32) == value) by (bit_vector);
}

} // verus!
