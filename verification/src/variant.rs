//! Variable-width value codec on the byte array.
//!
//! A [`Variant`] is a tagged value as the host passes them around. One can be
//! encoded at a byte offset as a four-byte tag followed by its payload, and
//! decoded back. Decoding treats an absent value (`Nil`) as a failure by
//! default, since that is the only way to tell a value apart from zeroed or
//! foreign bytes; [`decode_var_allow_nil`](PackedByteArray::decode_var_allow_nil)
//! is the permissive variant for callers that store genuine `Nil` markers.
//!
//! Object references can be reconstructed purely from byte content. Callers
//! decoding untrusted bytes must pass `allow_objects` as false, which refuses
//! every object reference instead of materializing one.

use vstd::prelude::*;

use crate::array::{PackedArray, PackedByteArray};
use crate::bytes::{le_bytes, lemma_le_bytes_len, lemma_le_round_trip, u64_of_le};
use crate::errors::ArrayError;

verus! {

/// A tagged value of the kinds the host passes through byte buffers: the
/// absent value, a truth value, a 64-bit integer, or a reference to a live
/// host-side object, carried as its bare identity.
#[derive(Clone, Copy, Debug, PartialEq, Eq, Structural)]
pub enum Variant {
    /// The absent value.
    Nil,
    /// A truth value.
    Bool(bool),
    /// A 64-bit integer.
    Int(i64),
    /// A reference to a live host-side object, as its bare identity.
    Object(u64),
}

/// The tag that names a variant's kind on the wire.
pub open spec fn var_tag(v: Variant) -> u64 {
    match v {
        Variant::Nil => 0u64,
        Variant::Bool(_) => 1u64,
        Variant::Int(_) => 2u64,
        Variant::Object(_) => 3u64,
    }
}

/// How many bytes a variant occupies: four tag bytes plus its payload.
pub open spec fn var_width(v: Variant) -> nat {
    match v {
        Variant::Nil => 4,
        Variant::Bool(_) => 8,
        Variant::Int(_) => 12,
        Variant::Object(_) => 12,
    }
}

/// A variant's payload bytes.
pub open spec fn var_payload(v: Variant) -> Seq<u8> {
    match v {
        Variant::Nil => Seq::<u8>::empty(),
        Variant::Bool(b) => le_bytes(
            if b {
                1u64
            } else {
                0u64
            },
            4,
        ),
        Variant::Int(i) => le_bytes(i as u64, 8),
        Variant::Object(id) => le_bytes(id, 8),
    }
}

/// The bytes a variant encodes to.
pub open spec fn var_bytes(v: Variant) -> Seq<u8> {
    le_bytes(var_tag(v), 4) + var_payload(v)
}

/// The variant stored at `offset` of `s` and the bytes it occupies, or
/// nothing when no sound encoding starts there.
pub open spec fn decode_var_at(s: Seq<u8>, offset: int) -> Option<(Variant, nat)> {
    if 0 <= offset && offset + 4 <= s.len() {
        let tag = u64_of_le(s.subrange(offset, offset + 4));
        if tag == 0 {
            Some((Variant::Nil, 4nat))
        } else if tag == 1 {
            if offset + 8 <= s.len() {
                let p = u64_of_le(s.subrange(offset + 4, offset + 8));
                if p == 0 {
                    Some((Variant::Bool(false), 8nat))
                } else if p == 1 {
                    Some((Variant::Bool(true), 8nat))
                } else {
                    None::<(Variant, nat)>
                }
            } else {
                None::<(Variant, nat)>
            }
        } else if tag == 2 {
            if offset + 12 <= s.len() {
                Some((Variant::Int(u64_of_le(s.subrange(offset + 4, offset + 12)) as i64), 12nat))
            } else {
                None::<(Variant, nat)>
            }
        } else if tag == 3 {
            if offset + 12 <= s.len() {
                Some((Variant::Object(u64_of_le(s.subrange(offset + 4, offset + 12))), 12nat))
            } else {
                None::<(Variant, nat)>
            }
        } else {
            None::<(Variant, nat)>
        }
    } else {
        None::<(Variant, nat)>
    }
}

impl PackedByteArray {
    /// Encodes a variant at `byte_offset` and returns the number of bytes
    /// written. Fails, writing nothing, when the value does not fit before
    /// the end of the array.
    ///
    /// An object reference is always written as its bare identity, so
    /// `allow_objects` changes nothing here; it is accepted for symmetry with
    /// decoding, where it guards the dangerous direction.
    pub fn encode_var(&mut self, byte_offset: usize, value: &Variant, allow_objects: bool) -> (r:
        Result<usize, ArrayError>)
        ensures
            r is Ok <==> byte_offset + var_width(*value) <= old(self)@.len(),
            (match r {
                Ok(n) => n == var_width(*value) && final(self)@ == old(self)@.take(
                    byte_offset as int,
                ) + var_bytes(*value) + old(self)@.skip(byte_offset as int + var_width(*value)),
                Err(e) => final(self)@ == old(self)@ && e == ArrayError::EncodeFailure,
            }),
    {
        let width: usize = match value {
            Variant::Nil => 4,
            Variant::Bool(_) => 8,
            Variant::Int(_) => 12,
            Variant::Object(_) => 12,
        };
        let n = self.len();
        if n < width || byte_offset > n - width {
            return Err(ArrayError::EncodeFailure);
        }
        let ghost s0 = self@;
        let ghost o = byte_offset as int;
        let tag: u64 = match value {
            Variant::Nil => 0,
            Variant::Bool(_) => 1,
            Variant::Int(_) => 2,
            Variant::Object(_) => 3,
        };
        self.write_le(byte_offset, 4, tag);
        proof {
            lemma_le_bytes_len(tag, 4);
            assert(self@.len() == s0.len());
        }
        match value {
            Variant::Nil => {
                proof {
                    assert(self@ =~= s0.take(o) + var_bytes(*value) + s0.skip(o + 4));
                }
            },
            Variant::Bool(b) => {
                self.write_le(
                    byte_offset + 4,
                    4,
                    if *b {
                        1
                    } else {
                        0
                    },
                );
                proof {
                    lemma_le_bytes_len(
                        if *b {
                            1u64
                        } else {
                            0u64
                        },
                        4,
                    );
                    assert(self@ =~= s0.take(o) + var_bytes(*value) + s0.skip(o + 8));
                }
            },
            Variant::Int(i) => {
                self.write_le(byte_offset + 4, 8, *i as u64);
                proof {
                    lemma_le_bytes_len(*i as u64, 8);
                    assert(self@ =~= s0.take(o) + var_bytes(*value) + s0.skip(o + 12));
                }
            },
            Variant::Object(id) => {
                self.write_le(byte_offset + 4, 8, *id);
                proof {
                    lemma_le_bytes_len(*id, 8);
                    assert(self@ =~= s0.take(o) + var_bytes(*value) + s0.skip(o + 12));
                }
            },
        }
        Ok(width)
    }

    /// Decodes a variant at `byte_offset` and returns it with the number of
    /// bytes it occupies. An absent value is a failure here: once genuine
    /// `Nil` markers are stored, they can no longer be told apart from
    /// garbage. An object reference is a failure unless `allow_objects` is
    /// set: reconstructing objects from untrusted bytes is the dangerous
    /// direction.
    pub fn decode_var(&self, byte_offset: usize, allow_objects: bool) -> (r: Result<
        (Variant, usize),
        ArrayError,
    >)
        ensures
            (match r {
                Ok(p) => decode_var_at(self@, byte_offset as int) == Some((p.0, p.1 as nat)) && !(
                p.0 is Nil) && (p.0 is Object ==> allow_objects),
                Err(e) => e == ArrayError::DecodeFailure && (match decode_var_at(
                    self@,
                    byte_offset as int,
                ) {
                    Option::Some(p) => p.0 is Nil || (p.0 is Object && !allow_objects),
                    Option::None => true,
                }),
            }),
    {
        let n = self.len();
        if n < 4 || byte_offset > n - 4 {
            return Err(ArrayError::DecodeFailure);
        }
        let tag = self.read_le(byte_offset, 4);
        if tag == 0 {
            Err(ArrayError::DecodeFailure)
        } else if tag == 1 {
            if n < 8 || byte_offset > n - 8 {
                return Err(ArrayError::DecodeFailure);
            }
            let p = self.read_le(byte_offset + 4, 4);
            if p == 0 {
                Ok((Variant::Bool(false), 8))
            } else if p == 1 {
                Ok((Variant::Bool(true), 8))
            } else {
                Err(ArrayError::DecodeFailure)
            }
        } else if tag == 2 {
            if n < 12 || byte_offset > n - 12 {
                return Err(ArrayError::DecodeFailure);
            }
            let p = self.read_le(byte_offset + 4, 8);
            Ok((Variant::Int(p as i64), 12))
        } else if tag == 3 {
            if n < 12 || byte_offset > n - 12 {
                return Err(ArrayError::DecodeFailure);
            }
            if !allow_objects {
                return Err(ArrayError::DecodeFailure);
            }
            let p = self.read_le(byte_offset + 4, 8);
            Ok((Variant::Object(p), 12))
        } else {
            Err(ArrayError::DecodeFailure)
        }
    }

    /// Permissive variant decoding, for callers that store genuine `Nil`
    /// markers: an unreadable or refused value comes back as `Nil` rather
    /// than a failure, with the bytes it occupies (zero when not even a tag
    /// fits). An object reference still requires `allow_objects`.
    pub fn decode_var_allow_nil(&self, byte_offset: usize, allow_objects: bool) -> (r: (
        Variant,
        usize,
    ))
        ensures
            (match decode_var_at(self@, byte_offset as int) {
                Option::Some(p) => if p.0 is Object && !allow_objects {
                    r.0 == Variant::Nil && r.1 == p.1
                } else {
                    r.0 == p.0 && r.1 == p.1
                },
                Option::None => r.0 == Variant::Nil && r.1 == 0,
            }),
    {
        let n = self.len();
        if n < 4 || byte_offset > n - 4 {
            return (Variant::Nil, 0);
        }
        let tag = self.read_le(byte_offset, 4);
        if tag == 0 {
            (Variant::Nil, 4)
        } else if tag == 1 {
            if n < 8 || byte_offset > n - 8 {
                return (Variant::Nil, 0);
            }
            let p = self.read_le(byte_offset + 4, 4);
            if p == 0 {
                (Variant::Bool(false), 8)
            } else if p == 1 {
                (Variant::Bool(true), 8)
            } else {
                (Variant::Nil, 0)
            }
        } else if tag == 2 {
            if n < 12 || byte_offset > n - 12 {
                return (Variant::Nil, 0);
            }
            let p = self.read_le(byte_offset + 4, 8);
            (Variant::Int(p as i64), 12)
        } else if tag == 3 {
            if n < 12 || byte_offset > n - 12 {
                return (Variant::Nil, 0);
            }
            let p = self.read_le(byte_offset + 4, 8);
            if allow_objects {
                (Variant::Object(p), 12)
            } else {
                (Variant::Nil, 12)
            }
        } else {
            (Variant::Nil, 0)
        }
    }
}

/// Value-codec round trip: decoding bytes freshly written by the variant
/// encoder yields the encoded value and its width back, at any offset of any
/// buffer with room.
pub proof fn lemma_variant_round_trip(s: Seq<u8>, offset: int, v: Variant)
    requires
        0 <= offset,
        offset + var_width(v) <= s.len(),
    ensures
        ({
            let written = s.take(offset) + var_bytes(v) + s.skip(offset + var_width(v));
            decode_var_at(written, offset) == Some((v, var_width(v)))
        }),
{
    let written = s.take(offset) + var_bytes(v) + s.skip(offset + var_width(v));
    let tag = var_tag(v);
    lemma_le_bytes_len(tag, 4);
    assert(written.subrange(offset, offset + 4) =~= le_bytes(tag, 4));
    lemma_le_round_trip(tag, 4);
    assert(tag <= 3 ==> (tag & 0xffff_ffff) == tag) by (bit_vector);
    match v {
        Variant::Nil => {
        },
        Variant::Bool(b) => {
            let p = if b {
                1u64
            } else {
                0u64
            };
            lemma_le_bytes_len(p, 4);
            assert(written.subrange(offset + 4, offset + 8) =~= le_bytes(p, 4));
            lemma_le_round_trip(p, 4);
            assert(p <= 1 ==> (p & 0xffff_ffff) == p) by (bit_vector);
        },
        Variant::Int(i) => {
            lemma_le_bytes_len(i as u64, 8);
            assert(written.subrange(offset + 4, offset + 12) =~= le_bytes(i as u64, 8));
            lemma_le_round_trip(i as u64, 8);
            assert(((i as u64) as i64) == i) by (bit_vector);
        },
        Variant::Object(id) => {
            lemma_le_bytes_len(id, 8);
            assert(written.subrange(offset + 4, offset + 12) =~= le_bytes(id, 8));
            lemma_le_round_trip(id, 8);
        },
    }
}

} // verus!
