//! Storage entry points backing every packed array.
//!
//! A [`Handle`] owns the backing storage of exactly one array value. The
//! methods here mirror a host engine's array interface: sizes and indices
//! travel as `i64`, a search reports "not found" through the sentinel `-1`,
//! and an index operator reports "out of bounds" by yielding nothing. The
//! public operation layer in [`crate::array`] translates every sentinel into
//! an `Option` or `Result` at the boundary; no sentinel escapes this module's
//! callers.
//!
//! Each handle is destroyed exactly once, on every exit path: destruction is
//! tied to the owning value going out of scope. Storage is never shared
//! between two handles; a copy is made element by element with the element's
//! own copy operation, so mutating one array can never affect another.

use vstd::prelude::*;

use crate::element::{count_value, sorted_le, views_of, Cmp, PackedElement};

verus! {

/// Backing storage of one packed array: a contiguous block of elements whose
/// length always fits the host's signed 64-bit size type.
pub struct Handle<E: PackedElement> {
    data: Vec<E>,
}

impl<E: PackedElement> View for Handle<E> {
    type V = Seq<E::V>;

    closed spec fn view(&self) -> Seq<E::V> {
        views_of(self.data@)
    }
}

impl<E: PackedElement> Handle<E> {
    /// Every handle holds at most `i64::MAX` elements, the host's size limit.
    #[verifier::type_invariant]
    spec fn size_fits(self) -> bool {
        self.data@.len() <= i64::MAX
    }

    /// Constructs the handle of an empty array.
    pub fn construct_default() -> (r: Self)
        ensures
            r@ == Seq::<E::V>::empty(),
    {
        let r = Handle { data: Vec::new() };
        proof {
            assert(r@ =~= Seq::<E::V>::empty());
        }
        r
    }

    /// Constructs an independent copy, element by element, with the element's
    /// own copy operation.
    pub fn construct_copy(&self) -> (r: Self)
        ensures
            r@ == self@,
    {
        proof {
            use_type_invariant(&*self);
        }
        let n = self.data.len();
        let mut data: Vec<E> = Vec::new();
        let mut i: usize = 0;
        while i < n
            invariant
                i <= n,
                n == self.data@.len(),
                data@.len() == i,
                forall|j: int| 0 <= j < i ==> data@[j]@ == self.data@[j]@,
            decreases n - i,
        {
            data.push(self.data[i].copy_elem());
            i = i + 1;
        }
        let r = Handle { data };
        proof {
            assert(r@ =~= self@);
        }
        r
    }

    /// Element-wise equality of two arrays.
    pub fn equals(&self, other: &Self) -> (r: bool)
        ensures
            r <==> self@ == other@,
    {
        proof {
            use_type_invariant(&*self);
            use_type_invariant(&*other);
        }
        let n = self.data.len();
        if n != other.data.len() {
            proof {
                assert(self@.len() == self.data@.len());
                assert(other@.len() == other.data@.len());
            }
            return false;
        }
        let mut i: usize = 0;
        while i < n
            invariant
                i <= n,
                n == self.data@.len(),
                n == other.data@.len(),
                forall|j: int| 0 <= j < i ==> self.data@[j]@ == other.data@[j]@,
            decreases n - i,
        {
            match self.data[i].compare(&other.data[i]) {
                Cmp::Equal => {},
                _ => {
                    proof {
                        assert(self@[i as int] == self.data@[i as int]@);
                        assert(other@[i as int] == other.data@[i as int]@);
                    }
                    return false;
                },
            }
            i = i + 1;
        }
        proof {
            assert(self@ =~= other@);
        }
        true
    }

    /// Number of stored elements, as the host reports it.
    pub fn size(&self) -> (r: i64)
        ensures
            r == self@.len(),
            self@.len() <= usize::MAX,
    {
        proof {
            use_type_invariant(&*self);
        }
        self.data.len() as i64
    }

    /// A borrowed window over the whole contiguous backing storage.
    pub fn as_slice(&self) -> (r: &[E])
        ensures
            views_of(r@) == self@,
    {
        self.data.as_slice()
    }

    /// Read-only access to the element at `i`; yields nothing when `i` is out
    /// of bounds, the host's way of reporting a bad index.
    pub fn index_const(&self, i: i64) -> (r: Option<&E>)
        ensures
            (match r {
                Some(e) => 0 <= i < self@.len() && e@ == self@[i as int],
                None => !(0 <= i < self@.len()),
            }),
    {
        proof {
            use_type_invariant(&*self);
        }
        if 0 <= i && i < self.data.len() as i64 {
            Some(&self.data[i as usize])
        } else {
            None
        }
    }

    /// Writes the element at `i`, reporting whether `i` was in bounds. This
    /// is the exclusive-access path: a host backed by shared storage splits
    /// off a unique copy here before touching memory.
    pub fn set_at(&mut self, i: i64, v: E) -> (ok: bool)
        ensures
            ok <==> 0 <= i < old(self)@.len(),
            ok ==> final(self)@ == old(self)@.update(i as int, v@),
            !ok ==> final(self)@ == old(self)@,
    {
        proof {
            use_type_invariant(&*self);
        }
        if 0 <= i && i < self.data.len() as i64 {
            let ghost before = self.data@;
            self.data[i as usize] = v;
            proof {
                assert(views_of(self.data@) =~= views_of(before).update(i as int, v@));
            }
            true
        } else {
            false
        }
    }

    /// Appends one element, handed over in its argument-slot representation.
    pub fn push_back(&mut self, arg: E::Arg)
        requires
            old(self)@.len() < i64::MAX,
        ensures
            final(self)@ == old(self)@.push(E::of_arg(arg@)),
    {
        proof {
            use_type_invariant(&*self);
        }
        let v = E::from_arg(arg);
        let ghost before = self.data@;
        let mut data: Vec<E> = Vec::new();
        core::mem::swap(&mut self.data, &mut data);
        data.push(v);
        core::mem::swap(&mut self.data, &mut data);
        proof {
            assert(views_of(self.data@) =~= views_of(before).push(E::of_arg(arg@)));
        }
    }

    /// Inserts one element at `i`, shifting the rest towards the end.
    pub fn insert(&mut self, i: i64, arg: E::Arg)
        requires
            0 <= i <= old(self)@.len(),
            old(self)@.len() < i64::MAX,
        ensures
            final(self)@ == old(self)@.insert(i as int, E::of_arg(arg@)),
    {
        proof {
            use_type_invariant(&*self);
        }
        let n = self.data.len();
        proof {
            assert(views_of(self.data@).len() == self.data@.len());
        }
        let v = E::from_arg(arg);
        let ghost before = self.data@;
        let mut data: Vec<E> = Vec::new();
        core::mem::swap(&mut self.data, &mut data);
        data.insert(i as usize, v);
        core::mem::swap(&mut self.data, &mut data);
        proof {
            before.insert_ensures(i as int, v);
            views_of(before).insert_ensures(i as int, v@);
            assert(views_of(self.data@) =~= views_of(before).insert(i as int, E::of_arg(arg@)));
        }
    }

    /// Removes the element at `i`, shifting the rest towards the front.
    pub fn remove_at(&mut self, i: i64)
        requires
            0 <= i < old(self)@.len(),
        ensures
            final(self)@ == old(self)@.remove(i as int),
    {
        proof {
            use_type_invariant(&*self);
        }
        let n = self.data.len();
        proof {
            assert(views_of(self.data@).len() == self.data@.len());
        }
        let ghost before = self.data@;
        let mut data: Vec<E> = Vec::new();
        core::mem::swap(&mut self.data, &mut data);
        data.remove(i as usize);
        core::mem::swap(&mut self.data, &mut data);
        proof {
            before.remove_ensures(i as int);
            views_of(before).remove_ensures(i as int);
            assert(views_of(self.data@) =~= views_of(before).remove(i as int));
        }
    }

    /// Removes every element.
    pub fn clear(&mut self)
        ensures
            final(self)@ == Seq::<E::V>::empty(),
    {
        let mut data: Vec<E> = Vec::new();
        core::mem::swap(&mut self.data, &mut data);
        data.clear();
        core::mem::swap(&mut self.data, &mut data);
        proof {
            assert(views_of(self.data@) =~= Seq::<E::V>::empty());
        }
    }

    /// Grows or shrinks the array to `size` elements. New slots are set to
    /// the element kind's default value; surplus slots are dropped from the
    /// end.
    pub fn resize(&mut self, size: i64)
        requires
            0 <= size <= usize::MAX,
        ensures
            size <= old(self)@.len() ==> final(self)@ == old(self)@.take(size as int),
            size > old(self)@.len() ==> final(self)@ == old(self)@ + Seq::new(
                (size - old(self)@.len()) as nat,
                |j: int| E::default_view(),
            ),
    {
        proof {
            use_type_invariant(&*self);
        }
        let ghost before = self.data@;
        let mut data: Vec<E> = Vec::new();
        core::mem::swap(&mut self.data, &mut data);
        if (size as usize) <= data.len() {
            data.truncate(size as usize);
            proof {
                assert(views_of(data@) =~= views_of(before).take(size as int));
            }
        } else {
            let goal: usize = size as usize;
            while data.len() < goal
                invariant
                    data@.len() <= goal,
                    goal <= i64::MAX,
                    before.len() <= data@.len(),
                    data@.subrange(0, before.len() as int) == before,
                    forall|j: int| before.len() <= j < data@.len() ==> data@[j]@
                        == E::default_view(),
                decreases goal - data@.len(),
            {
                data.push(E::default_elem());
                proof {
                    assert(data@.subrange(0, before.len() as int) =~= before);
                }
            }
            proof {
                assert(views_of(data@) =~= views_of(before) + Seq::new(
                    (size - before.len()) as nat,
                    |j: int| E::default_view(),
                ));
            }
        }
        core::mem::swap(&mut self.data, &mut data);
    }

    /// Sets every element to the given value.
    pub fn fill(&mut self, arg: E::Arg)
        ensures
            final(self)@ == Seq::new(old(self)@.len(), |j: int| E::of_arg(arg@)),
    {
        proof {
            use_type_invariant(&*self);
        }
        let ghost before = self.data@;
        let ghost argv = arg@;
        let v = E::from_arg(arg);
        let n = self.data.len();
        let mut i: usize = 0;
        while i < n
            invariant
                i <= n,
                n == self.data@.len(),
                n <= i64::MAX,
                self.data@.len() == before.len(),
                v@ == E::of_arg(argv),
                forall|j: int| 0 <= j < i ==> self.data@[j]@ == E::of_arg(argv),
            decreases n - i,
        {
            let c = v.copy_elem();
            self.data[i] = c;
            i = i + 1;
        }
        proof {
            assert(views_of(self.data@) =~= Seq::new(before.len(), |j: int| E::of_arg(argv)));
        }
    }

    /// Appends every element of `other`, in order, in one call.
    pub fn append_array(&mut self, other: &Handle<E>)
        requires
            old(self)@.len() + other@.len() <= i64::MAX,
        ensures
            final(self)@ == old(self)@ + other@,
    {
        proof {
            use_type_invariant(&*self);
            use_type_invariant(&*other);
        }
        let ghost before = self.data@;
        let n = other.data.len();
        let mut data: Vec<E> = Vec::new();
        core::mem::swap(&mut self.data, &mut data);
        let mut i: usize = 0;
        while i < n
            invariant
                i <= n,
                n == other.data@.len(),
                data@.len() == before.len() + i,
                data@.subrange(0, before.len() as int) == before,
                forall|j: int| 0 <= j < i ==> data@[before.len() + j]@ == other.data@[j]@,
            decreases n - i,
        {
            data.push(other.data[i].copy_elem());
            proof {
                assert(data@.subrange(0, before.len() as int) =~= before);
            }
            i = i + 1;
        }
        core::mem::swap(&mut self.data, &mut data);
        proof {
            assert(views_of(self.data@) =~= views_of(before) + views_of(other.data@));
        }
    }

    /// A new handle holding the elements of `begin..end`; an empty handle
    /// when `begin >= end`.
    pub fn slice(&self, begin: i64, end: i64) -> (r: Self)
        requires
            0 <= begin <= self@.len(),
            0 <= end <= self@.len(),
        ensures
            begin < end ==> r@ == self@.subrange(begin as int, end as int),
            begin >= end ==> r@ == Seq::<E::V>::empty(),
    {
        proof {
            use_type_invariant(&*self);
        }
        let mut data: Vec<E> = Vec::new();
        if begin >= end {
            let r = Handle { data };
            proof {
                assert(r@ =~= Seq::<E::V>::empty());
            }
            return r;
        }
        let n = self.data.len();
        proof {
            assert(self@.len() == self.data@.len());
        }
        let mut i: usize = begin as usize;
        let goal: usize = end as usize;
        while i < goal
            invariant
                begin <= i <= goal,
                goal == end,
                end <= self.data@.len(),
                data@.len() == i - begin,
                forall|j: int| 0 <= j < data@.len() ==> data@[j]@ == self.data@[begin + j]@,
            decreases goal - i,
        {
            data.push(self.data[i].copy_elem());
            i = i + 1;
        }
        let r = Handle { data };
        proof {
            assert(r@ =~= self@.subrange(begin as int, end as int));
        }
        r
    }

    /// Index of the first occurrence of the value at or after `from`, or the
    /// sentinel `-1` when there is none.
    pub fn find(&self, arg: E::Arg, from: i64) -> (r: i64)
        requires
            0 <= from,
        ensures
            r == -1 || (from <= r < self@.len() && self@[r as int] == E::of_arg(arg@)),
            r == -1 ==> forall|k: int| from <= k < self@.len() ==> self@[k] != E::of_arg(arg@),
            r != -1 ==> forall|k: int| from <= k < r ==> self@[k] != E::of_arg(arg@),
    {
        proof {
            use_type_invariant(&*self);
        }
        let ghost argv = arg@;
        let v = E::from_arg(arg);
        let n = self.data.len();
        proof {
            assert(self@.len() == self.data@.len());
        }
        if from >= n as i64 {
            return -1;
        }
        let mut i: usize = from as usize;
        while i < n
            invariant
                from <= i <= n,
                n == self.data@.len(),
                n == self@.len(),
                n <= i64::MAX,
                argv == arg@,
                v@ == E::of_arg(argv),
                forall|k: int| from <= k < i ==> self@[k] != E::of_arg(argv),
            decreases n - i,
        {
            match self.data[i].compare(&v) {
                Cmp::Equal => {
                    proof {
                        assert(self@[i as int] == self.data@[i as int]@);
                    }
                    return i as i64;
                },
                _ => {
                    proof {
                        assert(self@[i as int] == self.data@[i as int]@);
                    }
                },
            }
            i = i + 1;
        }
        -1
    }

    /// Index of the last occurrence of the value at or before the starting
    /// position, or the sentinel `-1` when there is none. A negative `from`
    /// or one past the end starts at the last element.
    pub fn rfind(&self, arg: E::Arg, from: i64) -> (r: i64)
        requires
            from >= -1,
        ensures
            r == -1 ==> forall|k: int|
                0 <= k <= rfind_start(from, self@.len() as int) ==> self@[k] != E::of_arg(arg@),
            r != -1 ==> 0 <= r <= rfind_start(from, self@.len() as int) && self@[r as int]
                == E::of_arg(arg@) && (forall|k: int|
                r < k <= rfind_start(from, self@.len() as int) ==> self@[k] != E::of_arg(arg@)),
    {
        proof {
            use_type_invariant(&*self);
        }
        let ghost argv = arg@;
        let v = E::from_arg(arg);
        let n = self.data.len();
        proof {
            assert(self@.len() == self.data@.len());
        }
        if n == 0 {
            return -1;
        }
        let ghost start = rfind_start(from, self@.len() as int);
        let mut i: i64 = if from == -1 || from >= n as i64 {
            (n as i64) - 1
        } else {
            from
        };
        while i >= 0
            invariant
                -1 <= i <= start,
                start < n,
                start == rfind_start(from, self@.len() as int),
                n == self.data@.len(),
                n == self@.len(),
                n <= i64::MAX,
                argv == arg@,
                v@ == E::of_arg(argv),
                forall|k: int| i < k <= start ==> self@[k] != E::of_arg(argv),
            decreases i + 1,
        {
            match self.data[i as usize].compare(&v) {
                Cmp::Equal => {
                    proof {
                        assert(self@[i as int] == self.data@[i as int]@);
                    }
                    return i;
                },
                _ => {
                    proof {
                        assert(self@[i as int] == self.data@[i as int]@);
                    }
                },
            }
            i = i - 1;
        }
        -1
    }

    /// Whether some element holds the given value.
    pub fn has(&self, arg: E::Arg) -> (r: bool)
        ensures
            r <==> self@.contains(E::of_arg(arg@)),
    {
        proof {
            use_type_invariant(&*self);
        }
        let ghost argv = arg@;
        let v = E::from_arg(arg);
        let n = self.data.len();
        proof {
            assert(self@.len() == self.data@.len());
        }
        let mut i: usize = 0;
        while i < n
            invariant
                i <= n,
                n == self.data@.len(),
                n == self@.len(),
                n <= i64::MAX,
                argv == arg@,
                v@ == E::of_arg(argv),
                forall|k: int| 0 <= k < i ==> self@[k] != E::of_arg(argv),
            decreases n - i,
        {
            match self.data[i].compare(&v) {
                Cmp::Equal => {
                    proof {
                        assert(self@[i as int] == self.data@[i as int]@);
                        assert(self@.contains(E::of_arg(argv)));
                    }
                    return true;
                },
                _ => {
                    proof {
                        assert(self@[i as int] == self.data@[i as int]@);
                    }
                },
            }
            i = i + 1;
        }
        false
    }

    /// How many elements hold the given value.
    pub fn count(&self, arg: E::Arg) -> (r: i64)
        ensures
            r == count_value(self@, E::of_arg(arg@)),
    {
        proof {
            use_type_invariant(&*self);
        }
        let ghost argv = arg@;
        let v = E::from_arg(arg);
        let n = self.data.len();
        proof {
            assert(self@.len() == self.data@.len());
            assert(self@.take(0) =~= Seq::<E::V>::empty());
        }
        let mut cnt: usize = 0;
        let mut i: usize = 0;
        while i < n
            invariant
                i <= n,
                cnt <= i,
                n == self.data@.len(),
                n <= i64::MAX,
                argv == arg@,
                v@ == E::of_arg(argv),
                cnt == count_value(self@.take(i as int), E::of_arg(argv)),
            decreases n - i,
        {
            let ghost taken = self@.take(i as int + 1);
            proof {
                assert(self@[i as int] == self.data@[i as int]@);
                assert(taken.drop_last() =~= self@.take(i as int));
                assert(taken.last() == self@[i as int]);
            }
            match self.data[i].compare(&v) {
                Cmp::Equal => {
                    cnt = cnt + 1;
                },
                _ => {},
            }
            i = i + 1;
        }
        proof {
            assert(self@.take(n as int) =~= self@);
        }
        cnt as i64
    }

    /// Insertion index that keeps a sorted array sorted: the index of the
    /// first element not below the value. On an unsorted array the result is
    /// unspecified but always within `0..=len`.
    pub fn bsearch(&self, arg: E::Arg) -> (r: i64)
        ensures
            0 <= r <= self@.len(),
            sorted_le::<E>(self@) ==> forall|k: int|
                0 <= k < r ==> E::le(#[trigger] self@[k], E::of_arg(arg@)) && self@[k]
                    != E::of_arg(arg@),
            sorted_le::<E>(self@) ==> forall|k: int|
                r <= k < self@.len() ==> E::le(E::of_arg(arg@), #[trigger] self@[k]),
    {
        proof {
            use_type_invariant(&*self);
        }
        let ghost argv = arg@;
        let ghost vs = self@;
        let v = E::from_arg(arg);
        let n = self.data.len();
        proof {
            assert(self@.len() == self.data@.len());
        }
        let mut lo: usize = 0;
        let mut hi: usize = n;
        while lo < hi
            invariant
                0 <= lo <= hi <= n,
                n == self.data@.len(),
                n <= i64::MAX,
                vs == self@,
                v@ == E::of_arg(argv),
                sorted_le::<E>(vs) ==> forall|k: int|
                    0 <= k < lo ==> E::le(#[trigger] vs[k], E::of_arg(argv)) && vs[k]
                        != E::of_arg(argv),
                sorted_le::<E>(vs) ==> forall|k: int|
                    hi <= k < n ==> E::le(E::of_arg(argv), #[trigger] vs[k]),
            decreases hi - lo,
        {
            let mid = lo + (hi - lo) / 2;
            proof {
                assert(vs[mid as int] == self.data@[mid as int]@);
            }
            match self.data[mid].compare(&v) {
                Cmp::Less => {
                    proof {
                        if sorted_le::<E>(vs) {
                            assert forall|k: int|
                                0 <= k < mid + 1 implies E::le(#[trigger] vs[k], E::of_arg(argv))
                                && vs[k] != E::of_arg(argv) by {
                                if lo <= k < mid {
                                    assert(E::le(vs[k], vs[mid as int]));
                                    E::le_transitive(vs[k], vs[mid as int], E::of_arg(argv));
                                    if vs[k] == E::of_arg(argv) {
                                        E::le_antisymmetric(vs[mid as int], E::of_arg(argv));
                                        assert(false);
                                    }
                                }
                            }
                        }
                    }
                    lo = mid + 1;
                },
                Cmp::Equal => {
                    proof {
                        if sorted_le::<E>(vs) {
                            E::le_total(E::of_arg(argv), E::of_arg(argv));
                            assert forall|k: int|
                                mid <= k < n implies E::le(E::of_arg(argv), #[trigger] vs[k]) by {
                                if mid < k {
                                    assert(E::le(vs[mid as int], vs[k]));
                                    E::le_transitive(E::of_arg(argv), vs[mid as int], vs[k]);
                                }
                            }
                        }
                    }
                    hi = mid;
                },
                Cmp::Greater => {
                    proof {
                        if sorted_le::<E>(vs) {
                            assert forall|k: int|
                                mid <= k < n implies E::le(E::of_arg(argv), #[trigger] vs[k]) by {
                                if mid < k {
                                    assert(E::le(vs[mid as int], vs[k]));
                                    E::le_transitive(E::of_arg(argv), vs[mid as int], vs[k]);
                                }
                            }
                        }
                    }
                    hi = mid;
                },
            }
        }
        lo as i64
    }

    /// Reverses the element order in place.
    pub fn reverse(&mut self)
        ensures
            final(self)@ == old(self)@.reverse(),
    {
        proof {
            use_type_invariant(&*self);
        }
        let ghost vold = self@;
        let n = self.data.len();
        proof {
            assert(self@.len() == self.data@.len());
        }
        let mut i: usize = 0;
        while i < n / 2
            invariant
                i <= n / 2,
                n == self.data@.len(),
                n <= i64::MAX,
                forall|k: int| 0 <= k < i ==> self.data@[k]@ == vold[n - 1 - k],
                forall|k: int| n - i <= k < n ==> self.data@[k]@ == vold[n - 1 - k],
                forall|k: int| i <= k < n - i ==> self.data@[k]@ == vold[k],
            decreases n - i,
        {
            let j = n - 1 - i;
            let a = self.data[i].copy_elem();
            let b = self.data[j].copy_elem();
            self.data[i] = b;
            self.data[j] = a;
            i = i + 1;
        }
        proof {
            assert(self@ =~= vold.reverse());
        }
    }

    /// Sorts the elements in ascending order. The sort is stable; since equal
    /// elements are indistinguishable, no tie-break is observable.
    pub fn sort(&mut self)
        ensures
            sorted_le::<E>(final(self)@),
            final(self)@.to_multiset() == old(self)@.to_multiset(),
            final(self)@.len() == old(self)@.len(),
    {
        proof {
            use_type_invariant(&*self);
        }
        let ghost vold = self@;
        let n = self.data.len();
        proof {
            assert(self@.len() == self.data@.len());
        }
        let mut i: usize = 0;
        while i < n
            invariant
                i <= n,
                n == self.data@.len(),
                n <= i64::MAX,
                self@.to_multiset() == vold.to_multiset(),
                forall|p: int, q: int| 0 <= p < q < i ==> E::le(#[trigger] self@[p], #[trigger] self@[q]),
                forall|p: int, q: int| 0 <= p < i <= q < n ==> E::le(#[trigger] self@[p], #[trigger] self@[q]),
            decreases n - i,
        {
            let mut m: usize = i;
            let mut k: usize = i + 1;
            proof {
                assert(self@.len() == self.data@.len());
                E::le_total(self@[i as int], self@[i as int]);
            }
            while k < n
                invariant
                    i <= m < k <= n,
                    n == self.data@.len(),
                    n == self@.len(),
                    forall|j: int| i <= j < k ==> E::le(self@[m as int], #[trigger] self@[j]),
                decreases n - k,
            {
                proof {
                    assert(self@[k as int] == self.data@[k as int]@);
                    assert(self@[m as int] == self.data@[m as int]@);
                }
                match self.data[k].compare(&self.data[m]) {
                    Cmp::Less => {
                        proof {
                            assert forall|j: int| i <= j < k + 1 implies E::le(
                                self@[k as int],
                                #[trigger] self@[j],
                            ) by {
                                if j < k {
                                    E::le_transitive(self@[k as int], self@[m as int], self@[j]);
                                }
                                if j == k {
                                    E::le_total(self@[k as int], self@[k as int]);
                                }
                            }
                        }
                        m = k;
                    },
                    Cmp::Equal => {
                        proof {
                            E::le_total(self@[m as int], self@[m as int]);
                        }
                    },
                    Cmp::Greater => {},
                }
                k = k + 1;
            }
            let ghost before_swap = self@;
            let a = self.data[i].copy_elem();
            let b = self.data[m].copy_elem();
            self.data[i] = b;
            self.data[m] = a;
            proof {
                assert(self@ =~= before_swap.update(i as int, before_swap[m as int]).update(
                    m as int,
                    before_swap[i as int],
                ));
                lemma_swap_multiset(before_swap, i as int, m as int);
            }
            i = i + 1;
        }
    }
}

/// Where a backwards search starts: the requested position, clamped to the
/// last element; a negative request also means the last element.
pub open spec fn rfind_start(from: i64, len: int) -> int {
    if from == -1 || from >= len {
        len - 1
    } else {
        from as int
    }
}

/// Swapping two positions of a sequence leaves its multiset of values
/// unchanged.
proof fn lemma_swap_multiset<A>(s: Seq<A>, i: int, j: int)
    requires
        0 <= i <= j < s.len(),
    ensures
        s.update(i, s[j]).update(j, s[i]).to_multiset() == s.to_multiset(),
{
    broadcast use vstd::seq_lib::group_to_multiset_ensures;
    broadcast use vstd::multiset::group_multiset_axioms;

    let u = s.update(i, s[j]);
    let t = u.update(j, s[i]);
    if i == j {
        assert(t =~= s);
    } else {
        assert(s.contains(s[i]));
        assert(s.contains(s[j]));
        assert(t.to_multiset() =~= s.to_multiset());
    }
}

} // verus!
