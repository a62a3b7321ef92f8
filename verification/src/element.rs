//! Element-kind descriptors: the closed set of types a packed array can store.
//!
//! Each implementation supplies the default value used when an array grows,
//! the element's own copy operation, a total order driving `sort` and
//! `bsearch`, and the conversion to and from the representation the host
//! expects in call argument slots (narrow integers widen to a 64-bit slot).

use vstd::prelude::*;

verus! {

/// Outcome of a three-way comparison between two element values.
pub enum Cmp {
    Less,
    Equal,
    Greater,
}

/// One storable element kind.
///
/// The order given by [`le`](PackedElement::le) must be total, and the
/// widening into an argument slot must be lossless: narrowing an argument
/// produced by [`arg_of`](PackedElement::arg_of) yields the original value.
pub trait PackedElement: View + Sized {
    /// Representation the host expects in call argument slots.
    type Arg: View;

    /// Total order on element values.
    spec fn le(a: Self::V, b: Self::V) -> bool;

    /// Value newly created slots are set to when an array grows.
    spec fn default_view() -> Self::V;

    /// Widening of an element value into an argument slot.
    spec fn arg_of(v: Self::V) -> <Self::Arg as View>::V;

    /// Narrowing of an argument slot back to a stored element value.
    spec fn of_arg(a: <Self::Arg as View>::V) -> Self::V;

    proof fn le_total(a: Self::V, b: Self::V)
        ensures
            Self::le(a, b) || Self::le(b, a),
    ;

    proof fn le_transitive(a: Self::V, b: Self::V, c: Self::V)
        requires
            Self::le(a, b),
            Self::le(b, c),
        ensures
            Self::le(a, c),
    ;

    proof fn le_antisymmetric(a: Self::V, b: Self::V)
        requires
            Self::le(a, b),
            Self::le(b, a),
        ensures
            a == b,
    ;

    /// Widening is lossless in the argument direction.
    proof fn arg_round_trip(v: Self::V)
        ensures
            Self::of_arg(Self::arg_of(v)) == v,
    ;

    fn default_elem() -> (r: Self)
        ensures
            r@ == Self::default_view(),
    ;

    /// The element's own copy operation (never a raw byte copy).
    fn copy_elem(&self) -> (r: Self)
        ensures
            r@ == self@,
    ;

    fn compare(&self, other: &Self) -> (c: Cmp)
        ensures
            (match c {
                Cmp::Less => Self::le(self@, other@) && self@ != other@,
                Cmp::Equal => self@ == other@,
                Cmp::Greater => Self::le(other@, self@) && self@ != other@,
            }),
    ;

    fn to_arg(&self) -> (r: Self::Arg)
        ensures
            r@ == Self::arg_of(self@),
    ;

    fn from_arg(arg: Self::Arg) -> (r: Self)
        ensures
            r@ == Self::of_arg(arg@),
    ;

    /// Bytes one element occupies in a staging buffer; bounds the footprint
    /// of the bulk-transfer buffer.
    fn slot_bytes() -> (r: usize)
        ensures
            1 <= r <= 32,
    ;
}

/// The element views of a sequence of elements.
pub open spec fn views_of<E: PackedElement>(s: Seq<E>) -> Seq<E::V> {
    s.map_values(|e: E| e@)
}

/// Whether a sequence of element values is in ascending order under the
/// element kind's total order.
pub open spec fn sorted_le<E: PackedElement>(s: Seq<E::V>) -> bool {
    forall|i: int, j: int| 0 <= i < j < s.len() ==> #[trigger] E::le(s[i], s[j])
}

/// A sequence holds a value at most as many times as it has positions.
pub proof fn lemma_count_value_le_len<A>(s: Seq<A>, v: A)
    ensures
        count_value(s, v) <= s.len(),
    decreases s.len(),
{
    if s.len() > 0 {
        lemma_count_value_le_len(s.drop_last(), v);
    }
}

/// How many positions of `s` hold the value `v`.
pub open spec fn count_value<A>(s: Seq<A>, v: A) -> nat
    decreases s.len(),
{
    if s.len() == 0 {
        0
    } else {
        count_value(s.drop_last(), v) + (if s.last() == v {
            1nat
        } else {
            0nat
        })
    }
}

impl PackedElement for u8 {
    type Arg = i64;

    open spec fn le(a: u8, b: u8) -> bool {
        a <= b
    }

    open spec fn default_view() -> u8 {
        0u8
    }

    open spec fn arg_of(v: u8) -> i64 {
        v as i64
    }

    open spec fn of_arg(a: i64) -> u8 {
        a as u8
    }

    proof fn le_total(a: u8, b: u8) {
    }

    proof fn le_transitive(a: u8, b: u8, c: u8) {
    }

    proof fn le_antisymmetric(a: u8, b: u8) {
    }

    proof fn arg_round_trip(v: u8) {
        assert(((v as i64) as u8) == v) by (bit_vector);
    }

    fn default_elem() -> (r: Self) {
        0u8
    }

    fn copy_elem(&self) -> (r: Self) {
        *self
    }

    fn compare(&self, other: &Self) -> (c: Cmp) {
        if *self < *other {
            Cmp::Less
        } else if *self == *other {
            Cmp::Equal
        } else {
            Cmp::Greater
        }
    }

    fn to_arg(&self) -> (r: i64) {
        *self as i64
    }

    fn from_arg(arg: i64) -> (r: Self) {
        arg as u8
    }

    fn slot_bytes() -> (r: usize) {
        1
    }
}

impl PackedElement for i32 {
    type Arg = i64;

    open spec fn le(a: i32, b: i32) -> bool {
        a <= b
    }

    open spec fn default_view() -> i32 {
        0i32
    }

    open spec fn arg_of(v: i32) -> i64 {
        v as i64
    }

    open spec fn of_arg(a: i64) -> i32 {
        a as i32
    }

    proof fn le_total(a: i32, b: i32) {
    }

    proof fn le_transitive(a: i32, b: i32, c: i32) {
    }

    proof fn le_antisymmetric(a: i32, b: i32) {
    }

    proof fn arg_round_trip(v: i32) {
        assert(((v as i64) as i32) == v) by (bit_vector);
    }

    fn default_elem() -> (r: Self) {
        0i32
    }

    fn copy_elem(&self) -> (r: Self) {
        *self
    }

    fn compare(&self, other: &Self) -> (c: Cmp) {
        if *self < *other {
            Cmp::Less
        } else if *self == *other {
            Cmp::Equal
        } else {
            Cmp::Greater
        }
    }

    fn to_arg(&self) -> (r: i64) {
        *self as i64
    }

    fn from_arg(arg: i64) -> (r: Self) {
        arg as i32
    }

    fn slot_bytes() -> (r: usize) {
        4
    }
}

impl PackedElement for i64 {
    type Arg = i64;

    open spec fn le(a: i64, b: i64) -> bool {
        a <= b
    }

    open spec fn default_view() -> i64 {
        0i64
    }

    open spec fn arg_of(v: i64) -> i64 {
        v
    }

    open spec fn of_arg(a: i64) -> i64 {
        a
    }

    proof fn le_total(a: i64, b: i64) {
    }

    proof fn le_transitive(a: i64, b: i64, c: i64) {
    }

    proof fn le_antisymmetric(a: i64, b: i64) {
    }

    proof fn arg_round_trip(v: i64) {
    }

    fn default_elem() -> (r: Self) {
        0i64
    }

    fn copy_elem(&self) -> (r: Self) {
        *self
    }

    fn compare(&self, other: &Self) -> (c: Cmp) {
        if *self < *other {
            Cmp::Less
        } else if *self == *other {
            Cmp::Equal
        } else {
            Cmp::Greater
        }
    }

    fn to_arg(&self) -> (r: i64) {
        *self
    }

    fn from_arg(arg: i64) -> (r: Self) {
        arg
    }

    fn slot_bytes() -> (r: usize) {
        8
    }
}

} // verus!
