//! Compression entry points of the byte array.
//!
//! The host reports a failed compression or decompression by handing back an
//! empty array rather than an error code. That sentinel never reaches a
//! caller: both operations map an empty result to an explicit failure. The
//! price is a documented ambiguity: compressing empty data also yields an
//! empty result, so it is reported as a failure even though nothing went
//! wrong, there being no way to tell the two apart.
//!
//! Two schemes are supported: [`CompressionMode::Stored`] keeps the bytes as
//! they are, and [`CompressionMode::RunLength`] packs each run of equal bytes
//! into a pair of one count byte (1 to 255) and the value.
//! [`lemma_compression_round_trip`] shows that for each mode, decompressing a
//! compression with the original length as the buffer size yields the data
//! back.

use vstd::prelude::*;

use crate::array::{PackedArray, PackedByteArray};
use crate::errors::ArrayError;

verus! {

/// The compression schemes the storage layer supports.
#[derive(Clone, Copy, Debug, PartialEq, Eq, Structural)]
pub enum CompressionMode {
    /// Bytes are kept as they are.
    Stored,
    /// Runs of equal bytes become pairs of a count byte (1 to 255) and the
    /// value.
    RunLength,
}

/// How many leading positions of `s` hold the value `v`.
pub open spec fn leading(s: Seq<u8>, v: u8) -> nat
    decreases s.len(),
{
    if s.len() == 0 || s[0] != v {
        0
    } else {
        1 + leading(s.drop_first(), v)
    }
}

/// The length of the run encoded first: the leading run, capped at 255.
pub open spec fn run_span(s: Seq<u8>) -> nat {
    let l = leading(s, s[0]);
    if l <= 255 {
        l
    } else {
        255
    }
}

/// The run-length encoding of `s`: for each maximal run of up to 255 equal
/// bytes, its length followed by its value.
pub open spec fn rle_encode(s: Seq<u8>) -> Seq<u8>
    decreases s.len(),
    via rle_encode_decreases
{
    if s.len() == 0 {
        Seq::<u8>::empty()
    } else {
        seq![run_span(s) as u8, s[0]] + rle_encode(s.skip(run_span(s) as int))
    }
}

#[via_fn]
proof fn rle_encode_decreases(s: Seq<u8>) {
    if s.len() > 0 {
        lemma_leading_le_len(s, s[0]);
    }
}

/// The decoding of a run-length stream: nothing when the stream is damaged
/// (a dangling half pair, or a zero count).
pub open spec fn rle_decode(s: Seq<u8>) -> Option<Seq<u8>>
    decreases s.len(),
{
    if s.len() == 0 {
        Some(Seq::<u8>::empty())
    } else if s.len() == 1 {
        None::<Seq<u8>>
    } else if s[0] == 0 {
        None::<Seq<u8>>
    } else {
        match rle_decode(s.skip(2)) {
            Option::Some(rest) => Some(Seq::new(s[0] as nat, |i: int| s[1]) + rest),
            Option::None => None::<Seq<u8>>,
        }
    }
}

/// A leading run is never longer than the sequence.
pub proof fn lemma_leading_le_len(s: Seq<u8>, v: u8)
    ensures
        leading(s, v) <= s.len(),
    decreases s.len(),
{
    if s.len() > 0 && s[0] == v {
        lemma_leading_le_len(s.drop_first(), v);
    }
}

/// Every position inside the leading run holds the run's value.
pub proof fn lemma_leading_prefix(s: Seq<u8>, v: u8)
    ensures
        forall|i: int| 0 <= i < leading(s, v) ==> s[i] == v,
    decreases s.len(),
{
    lemma_leading_le_len(s, v);
    if s.len() > 0 && s[0] == v {
        lemma_leading_prefix(s.drop_first(), v);
        assert forall|i: int| 0 <= i < leading(s, v) implies s[i] == v by {
            assert(leading(s, v) == 1 + leading(s.drop_first(), v));
            if i > 0 {
                assert(0 <= i - 1 < leading(s.drop_first(), v));
                assert(s.drop_first()[i - 1] == v);
                assert(s.drop_first()[i - 1] == s[i]);
            }
        }
    }
}

/// A run of `m` equal values followed by a different value (or the end) is a
/// leading run of exactly `m`.
proof fn lemma_leading_exact(s: Seq<u8>, v: u8, m: int)
    requires
        0 <= m <= s.len(),
        forall|k: int| 0 <= k < m ==> s[k] == v,
        m == s.len() || s[m] != v,
    ensures
        leading(s, v) == m,
    decreases m,
{
    if m == 0 {
    } else {
        assert(s[0] == v);
        lemma_leading_exact(s.drop_first(), v, m - 1);
    }
}

/// A prefix of `m` equal values puts the leading run at `m` or beyond.
proof fn lemma_leading_at_least(s: Seq<u8>, v: u8, m: int)
    requires
        0 <= m <= s.len(),
        forall|k: int| 0 <= k < m ==> s[k] == v,
    ensures
        leading(s, v) >= m,
    decreases m,
{
    if m > 0 {
        assert(s[0] == v);
        lemma_leading_at_least(s.drop_first(), v, m - 1);
    }
}

/// An encoding holds at most one pair per input byte.
pub proof fn lemma_rle_encode_len(s: Seq<u8>)
    ensures
        rle_encode(s).len() <= 2 * s.len(),
    decreases s.len(),
{
    if s.len() > 0 {
        lemma_leading_le_len(s, s[0]);
        lemma_rle_encode_len(s.skip(run_span(s) as int));
    }
}

/// A stream of odd length is always damaged.
proof fn lemma_rle_decode_odd(s: Seq<u8>)
    requires
        s.len() % 2 == 1,
    ensures
        rle_decode(s) is None,
    decreases s.len(),
{
    if s.len() > 1 && s[0] != 0 {
        lemma_rle_decode_odd(s.skip(2));
    }
}

/// Run-length round trip: decoding an encoding yields the data back.
pub proof fn lemma_rle_round_trip(s: Seq<u8>)
    ensures
        rle_decode(rle_encode(s)) == Some(s),
    decreases s.len(),
{
    if s.len() == 0 {
        assert(rle_encode(s) =~= Seq::<u8>::empty());
        assert(rle_decode(rle_encode(s)) == Some(s));
    } else {
        let n = run_span(s) as int;
        lemma_leading_le_len(s, s[0]);
        lemma_leading_prefix(s, s[0]);
        assert(1 <= n <= s.len() && n <= 255);
        lemma_rle_round_trip(s.skip(n));
        let enc = rle_encode(s);
        assert(enc == seq![n as u8, s[0]] + rle_encode(s.skip(n)));
        assert(enc.skip(2) =~= rle_encode(s.skip(n)));
        assert(enc[0] == n as u8 && enc[1] == s[0]);
        assert(enc[0] != 0);
        assert(Seq::new((n as u8) as nat, |i: int| s[0]) + s.skip(n) =~= s);
    }
}

/// Compresses a byte sequence pair by pair.
#[verifier::loop_isolation(false)]
fn rle_compress(a: &PackedByteArray) -> (r: PackedByteArray)
    requires
        2 * a@.len() <= i64::MAX,
    ensures
        r@ == rle_encode(a@),
{
    let n = a.len();
    let mut out = PackedArray::<u8>::new();
    let mut i: usize = 0;
    proof {
        assert(a@.skip(0) =~= a@);
        assert(out@ + rle_encode(a@) =~= rle_encode(a@));
    }
    while i < n
        invariant
            i <= n,
            out@ + rle_encode(a@.skip(i as int)) == rle_encode(a@),
            out@.len() <= 2 * i,
        decreases n - i,
    {
        let v = match a.get(i) {
            Some(x) => x,
            None => 0,
        };
        let mut j: usize = i + 1;
        let mut run_done = false;
        while !run_done
            invariant
                i < j <= n,
                j - i <= 255,
                forall|k: int| i <= k < j ==> a@[k] == v,
                run_done ==> (j == n || j - i == 255 || a@[j as int] != v),
            decreases n - j + (if run_done {
                0int
            } else {
                1int
            }),
        {
            if j == n || j - i == 255 {
                run_done = true;
            } else {
                match a.get(j) {
                    Some(x) => {
                        if x == v {
                            j = j + 1;
                        } else {
                            run_done = true;
                        }
                    },
                    None => {
                        run_done = true;
                    },
                }
            }
        }
        let ghost t = a@.skip(i as int);
        proof {
            assert(forall|k: int| 0 <= k < j - i ==> t[k] == v);
            assert(t[0] == v);
            if j - i < 255 {
                lemma_leading_exact(t, v, j - i);
            } else {
                lemma_leading_at_least(t, v, 255);
            }
            assert(run_span(t) == j - i);
        }
        let ghost before = out@;
        out.push((j - i) as u8);
        out.push(v);
        proof {
            assert(rle_encode(t) == seq![run_span(t) as u8, t[0]] + rle_encode(t.skip(run_span(t) as int)));
            assert(t.skip((j - i) as int) =~= a@.skip(j as int));
            assert(out@ =~= before + seq![(j - i) as u8, v]);
            assert(out@ + rle_encode(a@.skip(j as int)) =~= before + rle_encode(t));
        }
        i = j;
    }
    proof {
        assert(a@.skip(n as int) =~= Seq::<u8>::empty());
        assert(out@ =~= rle_encode(a@));
    }
    out
}

/// Decodes a run-length stream into at most `cap` bytes; reports nothing when
/// the stream is damaged or decodes to more than `cap` bytes.
#[verifier::loop_isolation(false)]
fn rle_decompress(a: &PackedByteArray, cap: usize) -> (r: Option<PackedByteArray>)
    requires
        cap <= i64::MAX,
    ensures
        (match r {
            Some(out) => rle_decode(a@) == Some(out@) && out@.len() <= cap,
            None => (match rle_decode(a@) {
                Option::Some(d) => d.len() > cap,
                Option::None => true,
            }),
        }),
{
    let n = a.len();
    if n % 2 != 0 {
        proof {
            lemma_rle_decode_odd(a@);
        }
        return None;
    }
    let mut out = PackedArray::<u8>::new();
    let mut p: usize = 0;
    proof {
        assert(a@.skip(0) =~= a@);
    }
    while p < n
        invariant
            p <= n,
            n % 2 == 0,
            p % 2 == 0,
            out@.len() <= cap,
            (match rle_decode(a@.skip(p as int)) {
                Option::Some(rest) => rle_decode(a@) == Some(out@ + rest),
                Option::None => rle_decode(a@) is None,
            }),
        decreases n - p,
    {
        let c = match a.get(p) {
            Some(x) => x,
            None => 0,
        };
        let v = match a.get(p + 1) {
            Some(x) => x,
            None => 0,
        };
        let ghost t = a@.skip(p as int);
        proof {
            assert(t[0] == c && t[1] == v && t.len() >= 2);
        }
        if c == 0 {
            return None;
        }
        proof {
            assert(rle_decode(t) == (match rle_decode(t.skip(2)) {
                Option::Some(rest) => Some(Seq::new(c as nat, |i: int| v) + rest),
                Option::None => None::<Seq<u8>>,
            }));
        }
        let room = cap - out.len();
        if (c as usize) > room {
            // Whatever the rest decodes to, the output already outgrows the
            // cap; the host gives up rather than over-allocate.
            return None;
        }
        let ghost before = out@;
        let count = c as usize;
        let mut q: usize = 0;
        while q < count
            invariant
                q <= count,
                out@ =~= before + Seq::new(q as nat, |i: int| v),
                out@.len() == before.len() + q,
            decreases count - q,
        {
            out.push(v);
            proof {
                assert(out@ =~= before + Seq::new((q + 1) as nat, |i: int| v));
            }
            q = q + 1;
        }
        proof {
            assert(out@ =~= before + Seq::new(c as nat, |i: int| v));
            assert(t.skip(2) =~= a@.skip(p as int + 2));
        }
        p = p + 2;
    }
    proof {
        assert(a@.skip(n as int) =~= Seq::<u8>::empty());
        assert(rle_decode(a@) == Some(out@));
    }
    Some(out)
}

/// What a fixed-buffer decompression yields: the decoded data exactly when
/// the stream is sound, the decoded length matches the buffer size, and the
/// result is non-empty and within the host's size limits.
pub open spec fn decompress_result(mode: CompressionMode, s: Seq<u8>, buffer_size: usize) -> Option<
    Seq<u8>,
> {
    match decompress_spec(mode, s) {
        Option::Some(d) => if d.len() == buffer_size && d.len() > 0 && d.len() <= i64::MAX {
            Some(d)
        } else {
            None::<Seq<u8>>
        },
        Option::None => None::<Seq<u8>>,
    }
}

/// What a dynamically sized decompression yields: the decoded data exactly
/// when the stream is sound, the result is non-empty, it fits the host's
/// size limits, and it stays within the caller's output cap, if one is given.
pub open spec fn decompress_dynamic_result(
    mode: CompressionMode,
    s: Seq<u8>,
    max_output_size: Option<usize>,
) -> Option<Seq<u8>> {
    match decompress_spec(mode, s) {
        Option::Some(d) => if d.len() > 0 && d.len() <= i64::MAX && d.len() <= usize::MAX && (
        match max_output_size {
            Option::Some(m) => d.len() <= m,
            Option::None => true,
        }) {
            Some(d)
        } else {
            None::<Seq<u8>>
        },
        Option::None => None::<Seq<u8>>,
    }
}

/// The bytes a compression produces.
pub open spec fn compress_spec(mode: CompressionMode, s: Seq<u8>) -> Seq<u8> {
    match mode {
        CompressionMode::Stored => s,
        CompressionMode::RunLength => rle_encode(s),
    }
}

/// The data a sound stream decodes to.
pub open spec fn decompress_spec(mode: CompressionMode, s: Seq<u8>) -> Option<Seq<u8>> {
    match mode {
        CompressionMode::Stored => Some(s),
        CompressionMode::RunLength => rle_decode(s),
    }
}

impl PackedByteArray {
    /// A new array with this array's data compressed.
    ///
    /// The host reports failure through an empty result, which is mapped to
    /// an error here; since compressing empty data also yields an empty
    /// result, it is reported as a failure too. The length bound keeps the
    /// compressed output within the host's size limit: it never exceeds
    /// twice the input ([`lemma_rle_encode_len`]).
    pub fn compress(&self, compression_mode: CompressionMode) -> (r: Result<
        PackedByteArray,
        ArrayError,
    >)
        requires
            2 * self@.len() <= i64::MAX,
        ensures
            r is Ok <==> self@.len() > 0,
            (match r {
                Ok(c) => c@ == compress_spec(compression_mode, self@),
                Err(e) => e == ArrayError::EncodeFailure,
            }),
    {
        let compressed = match compression_mode {
            CompressionMode::Stored => self.clone(),
            CompressionMode::RunLength => rle_compress(self),
        };
        proof {
            if self@.len() > 0 {
                assert(rle_encode(self@).len() >= 2);
            }
        }
        if compressed.is_empty() {
            Err(ArrayError::EncodeFailure)
        } else {
            Ok(compressed)
        }
    }

    /// A new array with this array's data decompressed into a buffer of
    /// exactly `buffer_size` bytes, the size of the uncompressed data.
    ///
    /// The host reports failure through an empty result, which is mapped to
    /// an error here; decoded data of any other length than `buffer_size` is
    /// a failure as well.
    pub fn decompress(&self, buffer_size: usize, compression_mode: CompressionMode) -> (r: Result<
        PackedByteArray,
        ArrayError,
    >)
        ensures
            (match r {
                Ok(out) => decompress_result(compression_mode, self@, buffer_size) == Some(out@),
                Err(e) => decompress_result(compression_mode, self@, buffer_size) is None && e
                    == ArrayError::DecodeFailure,
            }),
    {
        if buffer_size == 0 || (buffer_size as u64) > (i64::MAX as u64) {
            return Err(ArrayError::DecodeFailure);
        }
        match compression_mode {
            CompressionMode::Stored => {
                let n = self.len();
                if n == buffer_size {
                    Ok(self.clone())
                } else {
                    Err(ArrayError::DecodeFailure)
                }
            },
            CompressionMode::RunLength => {
                match rle_decompress(self, buffer_size) {
                    Some(out) => {
                        if out.len() == buffer_size {
                            Ok(out)
                        } else {
                            Err(ArrayError::DecodeFailure)
                        }
                    },
                    None => Err(ArrayError::DecodeFailure),
                }
            },
        }
    }

    /// A new array with this array's data decompressed, without a fixed
    /// output buffer; `max_output_size` caps how much may be produced.
    ///
    /// The host reports failure through an empty result, which is mapped to
    /// an error here, as is output beyond the cap.
    pub fn decompress_dynamic(
        &self,
        max_output_size: Option<usize>,
        compression_mode: CompressionMode,
    ) -> (r: Result<PackedByteArray, ArrayError>)
        ensures
            (match r {
                Ok(out) => decompress_dynamic_result(compression_mode, self@, max_output_size)
                    == Some(out@),
                Err(e) => decompress_dynamic_result(compression_mode, self@, max_output_size)
                    is None && e == ArrayError::DecodeFailure,
            }),
    {
        let requested: usize = match max_output_size {
            Some(m) => m,
            None => usize::MAX,
        };
        let cap: usize = if (requested as u64) > (i64::MAX as u64) {
            i64::MAX as usize
        } else {
            requested
        };
        match compression_mode {
            CompressionMode::Stored => {
                let n = self.len();
                if n > 0 && n <= cap {
                    Ok(self.clone())
                } else {
                    Err(ArrayError::DecodeFailure)
                }
            },
            CompressionMode::RunLength => {
                match rle_decompress(self, cap) {
                    Some(out) => {
                        if out.len() > 0 {
                            Ok(out)
                        } else {
                            Err(ArrayError::DecodeFailure)
                        }
                    },
                    None => Err(ArrayError::DecodeFailure),
                }
            },
        }
    }
}

/// Compression round trip: for each supported mode, decompressing a
/// compression of non-empty data, with the data's own length as the buffer
/// size, yields the data back. Empty data is the documented exception: its
/// compression is reported as a failure, an empty result being
/// indistinguishable from one.
pub proof fn lemma_compression_round_trip(mode: CompressionMode, data: Seq<u8>)
    requires
        0 < data.len() <= i64::MAX,
        data.len() <= usize::MAX,
    ensures
        decompress_result(mode, compress_spec(mode, data), data.len() as usize) == Some(data),
{
    match mode {
        CompressionMode::Stored => {
        },
        CompressionMode::RunLength => {
            lemma_rle_round_trip(data);
        },
    }
}

} // verus!
