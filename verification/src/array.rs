//! The public packed-array operation set.
//!
//! A [`PackedArray`] is a value type: every copy is independent, and mutating
//! one value never observably affects another. Each operation delegates to
//! one storage entry point (or a short fixed sequence of them), enforces
//! bounds, and translates the host's sentinel returns into `Option` and
//! `Result` values. Index-based operations ([`get`](PackedArray::get),
//! [`set`](PackedArray::set), [`insert`](PackedArray::insert),
//! [`remove`](PackedArray::remove)) treat a bad index as a hard failure and
//! never clamp; the range-based [`subarray`](PackedArray::subarray) clamps
//! silently and never fails.

use vstd::prelude::*;

use crate::element::{count_value, sorted_le, views_of, PackedElement};
use crate::errors::ArrayError;
use crate::host::{rfind_start, Handle};

verus! {

/// Space-efficient array of elements of one kind, with value semantics.
pub struct PackedArray<E: PackedElement> {
    handle: Handle<E>,
}

/// Packed array of bytes.
pub type PackedByteArray = PackedArray<u8>;

/// Packed array of 32-bit integers.
pub type PackedInt32Array = PackedArray<i32>;

/// Packed array of 64-bit integers.
pub type PackedInt64Array = PackedArray<i64>;

impl<E: PackedElement> View for PackedArray<E> {
    type V = Seq<E::V>;

    closed spec fn view(&self) -> Seq<E::V> {
        self.handle@
    }
}

/// The clamped sub-range `begin..end` of a sequence of element values: both
/// bounds are clamped to the length, and a crossed range is empty.
pub open spec fn subarray_view<E: PackedElement>(s: Seq<E::V>, begin: usize, end: usize) -> Seq<
    E::V,
> {
    let b = if begin <= s.len() {
        begin as int
    } else {
        s.len() as int
    };
    let e = if end <= s.len() {
        end as int
    } else {
        s.len() as int
    };
    if b < e {
        s.subrange(b, e)
    } else {
        Seq::<E::V>::empty()
    }
}

/// Where a forward search starts for a caller-supplied position.
pub open spec fn find_from(from: Option<usize>) -> int {
    match from {
        Option::None => 0,
        Option::Some(x) => x as int,
    }
}

/// Where a backwards search starts for a caller-supplied position: the
/// position itself, clamped to the last element; no position also means the
/// last element.
pub open spec fn rfind_from(from: Option<usize>, len: int) -> int {
    match from {
        Option::None => len - 1,
        Option::Some(x) => if x >= len {
            len - 1
        } else {
            x as int
        },
    }
}

impl<E: PackedElement> PackedArray<E> {
    /// Constructs an empty array.
    pub fn new() -> (r: Self)
        ensures
            r@ == Seq::<E::V>::empty(),
    {
        PackedArray { handle: Handle::construct_default() }
    }

    /// Builds an array holding the elements of an owned sequence, in order.
    /// The length bound is the host's size limit.
    pub fn from_vec(v: Vec<E>) -> (r: Self)
        requires
            v@.len() <= i64::MAX,
        ensures
            r@ == views_of(v@),
    {
        let mut h = Handle::<E>::construct_default();
        let n = v.len();
        let mut i: usize = 0;
        while i < n
            invariant
                i <= n,
                n == v@.len(),
                n <= i64::MAX,
                h@.len() == i,
                forall|j: int| 0 <= j < i ==> h@[j] == v@[j]@,
            decreases n - i,
        {
            proof {
                E::arg_round_trip(v@[i as int]@);
            }
            h.push_back(v[i].to_arg());
            i = i + 1;
        }
        let r = PackedArray { handle: h };
        proof {
            assert(r@ =~= views_of(v@));
        }
        r
    }

    /// Converts the array into an owned sequence, copying every element with
    /// the element's own copy operation.
    pub fn to_vec(&self) -> (r: Vec<E>)
        ensures
            views_of(r@) == self@,
    {
        let n = self.handle.size();
        let nu = n as usize;
        let mut out: Vec<E> = Vec::new();
        let mut i: usize = 0;
        while i < nu
            invariant
                i <= nu,
                nu == self@.len(),
                nu <= i64::MAX,
                out@.len() == i,
                forall|j: int| 0 <= j < i ==> out@[j]@ == self@[j],
            decreases nu - i,
        {
            match self.handle.index_const(i as i64) {
                Some(el) => {
                    out.push(el.copy_elem());
                },
                None => {
                    proof {
                        assert(false);
                    }
                },
            }
            i = i + 1;
        }
        proof {
            assert(views_of(out@) =~= self@);
        }
        out
    }

    /// Number of elements.
    pub fn len(&self) -> (r: usize)
        ensures
            r == self@.len(),
    {
        self.handle.size() as usize
    }

    /// Whether the array holds no element.
    pub fn is_empty(&self) -> (r: bool)
        ensures
            r <==> self@.len() == 0,
    {
        self.handle.size() == 0
    }

    /// Removes every element.
    pub fn clear(&mut self)
        ensures
            final(self)@ == Seq::<E::V>::empty(),
    {
        self.handle.clear();
    }

    /// A copy of the element at `index`; nothing when `index` is out of
    /// bounds. The copy is made with the element's own copy operation.
    pub fn get(&self, index: usize) -> (r: Option<E>)
        ensures
            (match r {
                Some(e) => index < self@.len() && e@ == self@[index as int],
                None => index >= self@.len(),
            }),
    {
        let n = self.handle.size();
        let nu = n as usize;
        if index >= nu {
            return None;
        }
        match self.handle.index_const(index as i64) {
            Some(el) => Some(el.copy_elem()),
            None => None,
        }
    }

    /// Overwrites the element at `index`, which must be in bounds.
    pub fn set(&mut self, index: usize, value: E)
        requires
            index < old(self)@.len(),
        ensures
            final(self)@ == old(self)@.update(index as int, value@),
    {
        let _n = self.handle.size();
        let _ok = self.handle.set_at(index as i64, value);
    }

    /// Overwrites the element at `index`, or reports exactly which index was
    /// out of bounds at which length.
    pub fn try_set(&mut self, index: usize, value: E) -> (r: Result<(), ArrayError>)
        ensures
            (match r {
                Ok(()) => index < old(self)@.len() && final(self)@ == old(self)@.update(
                    index as int,
                    value@,
                ),
                Err(e) => index >= old(self)@.len() && final(self)@ == old(self)@ && e == (
                ArrayError::OutOfBounds { index: index, length: old(self)@.len() as usize }),
            }),
    {
        let n = self.handle.size();
        let nu = n as usize;
        if index >= nu {
            return Err(ArrayError::OutOfBounds { index, length: nu });
        }
        let _ok = self.handle.set_at(index as i64, value);
        Ok(())
    }

    /// Appends one element; the array must be below the host's size limit.
    pub fn push(&mut self, value: E)
        requires
            old(self)@.len() < i64::MAX,
        ensures
            final(self)@ == old(self)@.push(value@),
    {
        proof {
            E::arg_round_trip(value@);
        }
        self.handle.push_back(value.to_arg());
    }

    /// Inserts one element at `index`, which must be a valid index or one
    /// past the end (append); the array must be below the host's size limit.
    pub fn insert(&mut self, index: usize, value: E)
        requires
            index <= old(self)@.len(),
            old(self)@.len() < i64::MAX,
        ensures
            final(self)@ == old(self)@.insert(index as int, value@),
    {
        let _n = self.handle.size();
        proof {
            E::arg_round_trip(value@);
        }
        self.handle.insert(index as i64, value.to_arg());
    }

    /// Inserts one element at `index`, or reports exactly which index was out
    /// of bounds at which length; `index` equal to the length appends.
    pub fn try_insert(&mut self, index: usize, value: E) -> (r: Result<(), ArrayError>)
        requires
            old(self)@.len() < i64::MAX,
        ensures
            (match r {
                Ok(()) => index <= old(self)@.len() && final(self)@ == old(self)@.insert(
                    index as int,
                    value@,
                ),
                Err(e) => index > old(self)@.len() && final(self)@ == old(self)@ && e == (
                ArrayError::OutOfBounds { index: index, length: old(self)@.len() as usize }),
            }),
    {
        let n = self.handle.size();
        let nu = n as usize;
        if index > nu {
            return Err(ArrayError::OutOfBounds { index, length: nu });
        }
        proof {
            E::arg_round_trip(value@);
        }
        self.handle.insert(index as i64, value.to_arg());
        Ok(())
    }

    /// Removes and returns the element at `index`, which must be in bounds.
    /// The element is read before the storage shifts, as removal invalidates
    /// direct access to the slot.
    pub fn remove(&mut self, index: usize) -> (r: E)
        requires
            index < old(self)@.len(),
        ensures
            r@ == old(self)@[index as int],
            final(self)@ == old(self)@.remove(index as int),
    {
        let _n = self.handle.size();
        let element = match self.handle.index_const(index as i64) {
            Some(el) => el.copy_elem(),
            None => E::default_elem(),
        };
        self.handle.remove_at(index as i64);
        element
    }

    /// Removes and returns the element at `index`, or reports exactly which
    /// index was out of bounds at which length.
    pub fn try_remove(&mut self, index: usize) -> (r: Result<E, ArrayError>)
        ensures
            (match r {
                Ok(e) => index < old(self)@.len() && e@ == old(self)@[index as int]
                    && final(self)@ == old(self)@.remove(index as int),
                Err(e) => index >= old(self)@.len() && final(self)@ == old(self)@ && e == (
                ArrayError::OutOfBounds { index: index, length: old(self)@.len() as usize }),
            }),
    {
        let n = self.handle.size();
        let nu = n as usize;
        if index >= nu {
            return Err(ArrayError::OutOfBounds { index, length: nu });
        }
        Ok(self.remove(index))
    }

    /// Sets every element to the given value.
    pub fn fill(&mut self, value: &E)
        ensures
            final(self)@ == Seq::new(old(self)@.len(), |j: int| value@),
    {
        proof {
            E::arg_round_trip(value@);
        }
        self.handle.fill(value.to_arg());
        proof {
            assert(self@ =~= Seq::new(old(self)@.len(), |j: int| value@));
        }
    }

    /// Grows or shrinks the array to `size` elements, bounded by the host's
    /// size limit; new slots take the element kind's default value.
    pub fn resize(&mut self, size: usize)
        requires
            size <= i64::MAX,
        ensures
            size <= old(self)@.len() ==> final(self)@ == old(self)@.take(size as int),
            size > old(self)@.len() ==> final(self)@ == old(self)@ + Seq::new(
                (size - old(self)@.len()) as nat,
                |j: int| E::default_view(),
            ),
    {
        self.handle.resize(size as i64);
    }

    /// Appends every element of another array of the same kind, in order, in
    /// a single storage call. The combined length is bounded by the host's
    /// size limit.
    pub fn extend_array(&mut self, other: &PackedArray<E>)
        requires
            old(self)@.len() + other@.len() <= i64::MAX,
        ensures
            final(self)@ == old(self)@ + other@,
    {
        self.handle.append_array(&other.handle);
    }

    /// A newly owned array holding the elements of `begin..end`, with both
    /// bounds silently clamped to the length. This never fails: a range asks
    /// for what is there, while an index must exist.
    pub fn subarray(&self, begin: usize, end: usize) -> (r: Self)
        ensures
            r@ == subarray_view::<E>(self@, begin, end),
    {
        let n = self.handle.size();
        let nu = n as usize;
        let b = if begin < nu {
            begin
        } else {
            nu
        };
        let e = if end < nu {
            end
        } else {
            nu
        };
        let h = self.handle.slice(b as i64, e as i64);
        PackedArray { handle: h }
    }

    /// A borrowed window over the whole contiguous storage.
    pub fn as_slice(&self) -> (r: &[E])
        ensures
            views_of(r@) == self@,
    {
        self.handle.as_slice()
    }

    /// Index of the first occurrence of the value, searching forward from
    /// `from` (from the start when `from` is `None`); `None` when the value
    /// does not occur there. The storage reports "not found" through a
    /// negative sentinel, which never reaches the caller.
    pub fn find(&self, value: &E, from: Option<usize>) -> (r: Option<usize>)
        ensures
            (match r {
                Some(idx) => find_from(from) <= idx < self@.len() && self@[idx as int] == value@
                    && (forall|k: int| find_from(from) <= k < idx ==> self@[k] != value@),
                None => forall|k: int| find_from(from) <= k < self@.len() ==> self@[k] != value@,
            }),
    {
        let n = self.handle.size();
        let nu = n as usize;
        let f = match from {
            Option::Some(x) => x,
            Option::None => 0,
        };
        if f >= nu {
            return None;
        }
        proof {
            E::arg_round_trip(value@);
        }
        let idx = self.handle.find(value.to_arg(), f as i64);
        if idx >= 0 {
            Some(idx as usize)
        } else {
            None
        }
    }

    /// Index of the last occurrence of the value, searching backwards from
    /// `from` (from the end when `from` is `None` or past the end); `None`
    /// when the value does not occur there.
    pub fn rfind(&self, value: &E, from: Option<usize>) -> (r: Option<usize>)
        ensures
            (match r {
                Some(idx) => 0 <= idx <= rfind_from(from, self@.len() as int) && self@[idx as int]
                    == value@ && (forall|k: int|
                    idx < k <= rfind_from(from, self@.len() as int) ==> self@[k] != value@),
                None => forall|k: int|
                    0 <= k <= rfind_from(from, self@.len() as int) ==> self@[k] != value@,
            }),
    {
        let n = self.handle.size();
        let nu = n as usize;
        let f: i64 = match from {
            Option::Some(x) => if x >= nu {
                -1
            } else {
                x as i64
            },
            Option::None => -1,
        };
        proof {
            E::arg_round_trip(value@);
            assert(rfind_start(f, self@.len() as int) == rfind_from(from, self@.len() as int));
        }
        let idx = self.handle.rfind(value.to_arg(), f);
        if idx >= 0 {
            Some(idx as usize)
        } else {
            None
        }
    }

    /// Insertion index that keeps a sorted array sorted: the index of the
    /// first element not below the value. This never fails; on an unsorted
    /// array the index is unspecified but always within `0..=len`.
    pub fn bsearch(&self, value: &E) -> (r: usize)
        ensures
            r <= self@.len(),
            sorted_le::<E>(self@) ==> forall|k: int|
                0 <= k < r ==> E::le(#[trigger] self@[k], value@) && self@[k] != value@,
            sorted_le::<E>(self@) ==> forall|k: int|
                r <= k < self@.len() ==> E::le(value@, #[trigger] self@[k]),
    {
        let _n = self.handle.size();
        proof {
            E::arg_round_trip(value@);
        }
        let idx = self.handle.bsearch(value.to_arg());
        idx as usize
    }

    /// Whether the array holds the given value.
    pub fn contains(&self, value: &E) -> (r: bool)
        ensures
            r <==> self@.contains(value@),
    {
        proof {
            E::arg_round_trip(value@);
        }
        self.handle.has(value.to_arg())
    }

    /// How many elements hold the given value.
    pub fn count(&self, value: &E) -> (r: usize)
        ensures
            r == count_value(self@, value@),
    {
        let _n = self.handle.size();
        proof {
            E::arg_round_trip(value@);
            crate::element::lemma_count_value_le_len(self@, value@);
        }
        let c = self.handle.count(value.to_arg());
        c as usize
    }

    /// Reverses the element order.
    pub fn reverse(&mut self)
        ensures
            final(self)@ == old(self)@.reverse(),
    {
        self.handle.reverse();
    }

    /// Sorts the elements in ascending order. The sort is stable; equal
    /// elements are indistinguishable, so no tie-break is observable.
    pub fn sort(&mut self)
        ensures
            sorted_le::<E>(final(self)@),
            final(self)@.to_multiset() == old(self)@.to_multiset(),
            final(self)@.len() == old(self)@.len(),
    {
        self.handle.sort();
    }

    /// Element-wise equality with another array of the same kind.
    pub fn equals(&self, other: &PackedArray<E>) -> (r: bool)
        ensures
            r <==> self@ == other@,
    {
        self.handle.equals(&other.handle)
    }
}

impl<E: PackedElement> PartialEq for PackedArray<E> {
    /// Element-wise equality, through the storage's own comparison.
    fn eq(&self, other: &Self) -> bool {
        self.handle.equals(&other.handle)
    }
}

impl<E: PackedElement> vstd::std_specs::cmp::PartialEqSpecImpl for PackedArray<E> {
    open spec fn obeys_eq_spec() -> bool {
        true
    }

    open spec fn eq_spec(&self, other: &Self) -> bool {
        self@ == other@
    }
}

impl<E: PackedElement> Clone for PackedArray<E> {
    /// An independent copy: the storage is copied element by element, so
    /// mutating the copy never observably affects this array.
    fn clone(&self) -> (r: Self)
        ensures
            r@ == self@,
    {
        PackedArray { handle: self.handle.construct_copy() }
    }
}

impl<E: PackedElement> Default for PackedArray<E> {
    /// The empty array.
    fn default() -> (r: Self)
        ensures
            r@ == Seq::<E::V>::empty(),
    {
        PackedArray::new()
    }
}

/// Round trip of owned sequences: converting a sequence into a packed array
/// and back preserves the length, every element value and their order.
pub fn vec_round_trip<E: PackedElement>(v: Vec<E>) -> (r: Vec<E>)
    requires
        v@.len() <= i64::MAX,
    ensures
        views_of(r@) == views_of(v@),
{
    PackedArray::from_vec(v).to_vec()
}

/// Value independence: a copy of an array is its own value. Pushing onto the
/// copy yields exactly the source's elements followed by the new one, while
/// the source, only ever borrowed shared here, keeps its contents.
pub fn copy_and_push<E: PackedElement>(source: &PackedArray<E>, value: E) -> (copy: PackedArray<
    E,
>)
    requires
        source@.len() < i64::MAX,
    ensures
        copy@ == source@.push(value@),
{
    let mut copy = source.clone();
    copy.push(value);
    copy
}

} // verus!
