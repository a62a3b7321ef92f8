//! The bulk-transfer engine: batched extension of a packed array from an
//! element producer.
//!
//! Appending from a producer of unknown length must not pay one storage call
//! per element. The engine works in two phases. While the producer's
//! advertised lower bound lasts, the array grows once by the whole bound and
//! the yielded elements are written straight into the new region. After
//! that, elements are staged in a fixed-capacity buffer and committed in
//! batches: the array grows by exactly the number of staged elements each
//! time, so storage is never over-allocated even when the host rounds
//! allocations up. The lower bound is the producer's own promise, not a
//! checked fact: a producer that yields fewer elements than it advertised is
//! reported as [`ArrayError::ProducerContractViolation`]; the elements it did
//! yield are appended all the same, never silently dropped.

use vstd::prelude::*;

use crate::array::PackedArray;
use crate::element::{views_of, PackedElement};
use crate::errors::ArrayError;

verus! {

/// Byte budget of the staging buffer: enough to amortize storage calls
/// without blowing up the stack.
pub const STAGING_BUDGET_BYTES: usize = 2048;

/// A source of elements with an advertised lower bound on how many it will
/// still yield.
///
/// The bound is untrusted: the engine survives a producer that claims more
/// than it delivers and reports the breach instead of under-filling.
pub trait Producer<E: PackedElement>: Sized {
    /// The element values not yet yielded, in order.
    spec fn pending(&self) -> Seq<E::V>;

    /// The count this producer claims as a lower bound on its pending
    /// elements. Nothing ties the claim to the truth.
    spec fn claimed(&self) -> nat;

    /// The advertised lower bound.
    fn lower_bound(&self) -> (r: usize)
        ensures
            r == self.claimed(),
    ;

    /// Yields the next element, or nothing once exhausted.
    fn next(&mut self) -> (r: Option<E>)
        ensures
            (match r {
                Some(e) => old(self).pending().len() > 0 && e@ == old(self).pending()[0]
                    && final(self).pending() == old(self).pending().drop_first(),
                None => old(self).pending().len() == 0
                    && final(self).pending() == old(self).pending(),
            }),
    ;
}

/// Fixed-capacity staging buffer of the bulk-transfer engine. Elements are
/// gathered here and committed in one batch, so the array grows by exactly
/// the number of staged elements.
pub struct ExtendBuffer<E: PackedElement> {
    items: Vec<E>,
    capacity: usize,
}

impl<E: PackedElement> View for ExtendBuffer<E> {
    type V = Seq<E::V>;

    closed spec fn view(&self) -> Seq<E::V> {
        views_of(self.items@)
    }
}

impl<E: PackedElement> ExtendBuffer<E> {
    /// How many elements the buffer can stage at once.
    pub closed spec fn spec_capacity(&self) -> nat {
        self.capacity as nat
    }

    /// The staged elements never outgrow the capacity, and at least one
    /// element can always be staged.
    #[verifier::type_invariant]
    spec fn wf(self) -> bool {
        self.items@.len() <= self.capacity && self.capacity >= 1
    }

    /// An empty buffer whose capacity keeps the byte footprint within the
    /// staging budget, with room for at least one element.
    pub fn new() -> (r: Self)
        ensures
            r@ == Seq::<E::V>::empty(),
            r.spec_capacity() >= 1,
    {
        let sb = E::slot_bytes();
        let per_budget = STAGING_BUDGET_BYTES / sb;
        let cap = if per_budget >= 1 {
            per_budget
        } else {
            1
        };
        let r = ExtendBuffer { items: Vec::new(), capacity: cap };
        proof {
            assert(r@ =~= Seq::<E::V>::empty());
        }
        r
    }

    /// Whether the buffer is at capacity. Also reports that the staged count
    /// never exceeds the capacity.
    pub fn is_full(&self) -> (r: bool)
        ensures
            r <==> self@.len() == self.spec_capacity(),
            self@.len() <= self.spec_capacity(),
    {
        proof {
            use_type_invariant(&*self);
            assert(self@.len() == self.items@.len());
        }
        self.items.len() == self.capacity
    }

    /// Stages one element; there must be room.
    pub fn push(&mut self, e: E)
        requires
            old(self)@.len() < old(self).spec_capacity(),
        ensures
            final(self)@ == old(self)@.push(e@),
            final(self).spec_capacity() == old(self).spec_capacity(),
    {
        proof {
            use_type_invariant(&*self);
        }
        let ghost before = self.items@;
        let mut items: Vec<E> = Vec::new();
        core::mem::swap(&mut self.items, &mut items);
        items.push(e);
        core::mem::swap(&mut self.items, &mut items);
        proof {
            assert(views_of(self.items@) =~= views_of(before).push(e@));
        }
    }

    /// Hands the staged elements out in order and leaves the buffer empty.
    pub fn drain(&mut self) -> (r: Vec<E>)
        ensures
            views_of(r@) == old(self)@,
            final(self)@ == Seq::<E::V>::empty(),
            final(self).spec_capacity() == old(self).spec_capacity(),
    {
        proof {
            use_type_invariant(&*self);
        }
        let mut items: Vec<E> = Vec::new();
        core::mem::swap(&mut self.items, &mut items);
        proof {
            assert(views_of(self.items@) =~= Seq::<E::V>::empty());
        }
        items
    }
}

impl<E: PackedElement> PackedArray<E> {
    /// Appends every element a producer yields, in order.
    ///
    /// While the producer's advertised lower bound lasts, the array grows
    /// once and the elements are written straight into the new region; after
    /// that they are staged and committed in batches. Every yielded element
    /// is appended even when the producer breaks its promise; the breach is
    /// reported as `ProducerContractViolation` exactly when the advertised
    /// bound exceeds what the producer delivered.
    #[verifier::loop_isolation(false)]
    pub fn extend_from_producer<P: Producer<E>>(&mut self, producer: &mut P) -> (r: Result<
        (),
        ArrayError,
    >)
        requires
            old(self)@.len() + old(producer).pending().len() <= i64::MAX,
            old(self)@.len() + old(producer).pending().len() <= usize::MAX,
        ensures
            final(self)@ == old(self)@ + old(producer).pending(),
            final(producer).pending().len() == 0,
            r is Ok <==> old(producer).claimed() <= old(producer).pending().len(),
            r is Err ==> r == Err::<(), ArrayError>(ArrayError::ProducerContractViolation),
    {
        let ghost base = self@;
        let ghost pend0 = producer.pending();
        let lb = producer.lower_bound();
        let len = self.len();

        // The host bounds sizes by i64 and addresses by usize. A bound the
        // array could never grow by already overruns the true pending count,
        // which both preconditions keep within those limits; such a producer
        // is drained so that nothing it yielded is lost, then reported.
        let too_big = (lb as u64) > (i64::MAX as u64) - (len as u64) || lb > usize::MAX - len;
        if too_big {
            proof {
                assert(lb > pend0.len());
            }
            let mut done = false;
            while !done
                invariant
                    self@ + producer.pending() == base + pend0,
                    done ==> producer.pending().len() == 0,
                decreases producer.pending().len() + (if done {
                    0int
                } else {
                    1int
                }),
            {
                let ghost pold = producer.pending();
                let nxt = producer.next();
                match nxt {
                    None => {
                        done = true;
                    },
                    Some(v) => {
                        let ghost prev = self@;
                        self.push(v);
                        proof {
                            assert(self@ + producer.pending() =~= prev + pold);
                        }
                    },
                }
            }
            proof {
                assert(self@ =~= base + pend0);
            }
            return Err(ArrayError::ProducerContractViolation);
        }

        // Fast phase: grow once by the whole advertised bound and fill the
        // new region straight from the producer.
        if lb > 0 {
            let capacity = len + lb;
            self.resize(capacity);
            let mut i: usize = 0;
            let mut shortfall = false;
            while !shortfall && i < lb
                invariant
                    i <= lb,
                    !shortfall ==> i <= pend0.len(),
                    producer.pending() == pend0.skip(i as int),
                    self@.len() == len + lb,
                    self@.subrange(0, len as int) == base,
                    forall|k: int| 0 <= k < i ==> self@[len + k] == pend0[k],
                    shortfall ==> pend0.len() == i && i < lb,
                decreases lb - i + (if shortfall {
                    0int
                } else {
                    1int
                }),
            {
                let nxt = producer.next();
                match nxt {
                    Some(v) => {
                        let ghost prev = self@;
                        self.set(len + i, v);
                        proof {
                            assert(pend0.skip(i as int)[0] == pend0[i as int]);
                            assert(pend0.skip(i as int).drop_first() =~= pend0.skip(i as int + 1));
                            assert(self@.subrange(0, len as int) =~= prev.subrange(0, len as int));
                        }
                        i = i + 1;
                    },
                    None => {
                        shortfall = true;
                    },
                }
            }
            if shortfall {
                // The producer broke its promise: keep what it yielded, trim
                // the unfilled region, and report the breach.
                self.resize(len + i);
                proof {
                    assert(self@ =~= base + pend0);
                }
                return Err(ArrayError::ProducerContractViolation);
            }
            proof {
                assert(self@ =~= base + pend0.take(lb as int));
                assert(pend0.take(lb as int) + pend0.skip(lb as int) =~= pend0);
            }
        }

        // Slow phase: stage elements in a bounded buffer and commit them in
        // batches, growing by exactly the number staged each time.
        let ghost mid = self@;
        let ghost rest0 = producer.pending();
        proof {
            assert(mid + rest0 =~= base + pend0);
        }
        let mut cur_len = self.len();
        let mut buf = ExtendBuffer::<E>::new();
        let mut done = false;
        while !done
            invariant
                buf@.len() == 0,
                buf.spec_capacity() >= 1,
                cur_len == self@.len(),
                self@ + producer.pending() == mid + rest0,
                done ==> producer.pending().len() == 0,
            decreases producer.pending().len() + (if done {
                0int
            } else {
                1int
            }),
        {
            let ghost pold = producer.pending();
            let nxt = producer.next();
            match nxt {
                None => {
                    done = true;
                },
                Some(item) => {
                    buf.push(item);
                    proof {
                        assert((self@ + buf@) + producer.pending() =~= self@ + pold);
                    }
                    let mut stop = buf.is_full();
                    while !stop
                        invariant
                            1 <= buf@.len() <= buf.spec_capacity(),
                            buf.spec_capacity() >= 1,
                            !stop ==> buf@.len() < buf.spec_capacity(),
                            cur_len == self@.len(),
                            (self@ + buf@) + producer.pending() == mid + rest0,
                            stop ==> (buf@.len() == buf.spec_capacity() || producer.pending().len()
                                == 0),
                        decreases producer.pending().len() + (if stop {
                            0int
                        } else {
                            1int
                        }),
                    {
                        let ghost pold2 = producer.pending();
                        let ghost bb = buf@;
                        let nxt2 = producer.next();
                        match nxt2 {
                            Some(item2) => {
                                buf.push(item2);
                                proof {
                                    assert((self@ + buf@) + producer.pending() =~= (self@ + bb)
                                        + pold2);
                                }
                                stop = buf.is_full();
                            },
                            None => {
                                stop = true;
                            },
                        }
                    }
                    // Commit the staged batch: one resize, then in-place
                    // writes over the freshly defaulted region.
                    let ghost prevself = self@;
                    let ghost bufc = buf@;
                    let staged = buf.drain();
                    let add = staged.len();
                    proof {
                        assert(views_of(staged@).len() == staged@.len());
                        assert(prevself.len() + bufc.len() + producer.pending().len() == (mid
                            + rest0).len());
                    }
                    let capacity2 = cur_len + add;
                    self.resize(capacity2);
                    proof {
                        assert(self@.subrange(0, cur_len as int) =~= prevself);
                    }
                    let mut k: usize = 0;
                    while k < add
                        invariant
                            k <= add,
                            add == staged@.len(),
                            self@.len() == cur_len + add,
                            self@.subrange(0, cur_len as int) == prevself,
                            forall|j: int| 0 <= j < k ==> self@[cur_len + j] == staged@[j]@,
                        decreases add - k,
                    {
                        let c = staged[k].copy_elem();
                        let ghost prev = self@;
                        self.set(cur_len + k, c);
                        proof {
                            assert(self@.subrange(0, cur_len as int) =~= prev.subrange(
                                0,
                                cur_len as int,
                            ));
                        }
                        k = k + 1;
                    }
                    cur_len = cur_len + add;
                    proof {
                        assert(self@ =~= prevself + bufc);
                        assert(self@ + producer.pending() =~= (prevself + bufc)
                            + producer.pending());
                    }
                },
            }
        }
        proof {
            assert(self@ =~= mid + rest0);
            assert(self@ =~= base + pend0);
        }
        Ok(())
    }

    /// Builds an array from everything a producer yields, reporting a
    /// producer that under-delivers on its advertised bound.
    pub fn from_producer<P: Producer<E>>(producer: &mut P) -> (r: Result<Self, ArrayError>)
        requires
            old(producer).pending().len() <= i64::MAX,
            old(producer).pending().len() <= usize::MAX,
        ensures
            final(producer).pending().len() == 0,
            (match r {
                Ok(a) => a@ == old(producer).pending() && old(producer).claimed() <= old(
                    producer,
                ).pending().len(),
                Err(e) => e == ArrayError::ProducerContractViolation && old(producer).claimed()
                    > old(producer).pending().len(),
            }),
    {
        let mut a = PackedArray::<E>::new();
        match a.extend_from_producer(producer) {
            Ok(()) => {
                proof {
                    assert(a@ =~= old(producer).pending());
                }
                Ok(a)
            },
            Err(e) => Err(e),
        }
    }
}

/// A producer yielding the elements of an owned sequence in order.
///
/// The advertised bound is stored separately from the elements: an accurate
/// producer advertises exactly what remains, but nothing forces accuracy,
/// which is precisely what the bulk-transfer engine has to survive.
pub struct VecProducer<E: PackedElement> {
    items: Vec<E>,
    pos: usize,
    claimed_bound: usize,
}

impl<E: PackedElement> VecProducer<E> {
    /// A producer over `items` whose advertised bound is accurate.
    pub fn new(items: Vec<E>) -> (r: Self)
        ensures
            r.pending() == views_of(items@),
            r.claimed() == items@.len(),
    {
        let c = items.len();
        let r = VecProducer { items, pos: 0, claimed_bound: c };
        proof {
            assert(r.pending() =~= views_of(r.items@));
        }
        r
    }

    /// A producer over `items` that advertises whatever bound it is told to,
    /// truthful or not.
    pub fn with_claim(items: Vec<E>, claim: usize) -> (r: Self)
        ensures
            r.pending() == views_of(items@),
            r.claimed() == claim,
    {
        let r = VecProducer { items, pos: 0, claimed_bound: claim };
        proof {
            assert(r.pending() =~= views_of(r.items@));
        }
        r
    }
}

impl<E: PackedElement> Producer<E> for VecProducer<E> {
    closed spec fn pending(&self) -> Seq<E::V> {
        if self.pos <= self.items@.len() {
            views_of(self.items@).skip(self.pos as int)
        } else {
            Seq::<E::V>::empty()
        }
    }

    closed spec fn claimed(&self) -> nat {
        self.claimed_bound as nat
    }

    fn lower_bound(&self) -> (r: usize) {
        self.claimed_bound
    }

    fn next(&mut self) -> (r: Option<E>) {
        if self.pos < self.items.len() {
            let e = self.items[self.pos].copy_elem();
            self.pos = self.pos + 1;
            proof {
                assert(old(self).pending()[0] == self.items@[old(self).pos as int]@);
                assert(self.pending() =~= old(self).pending().drop_first());
            }
            Some(e)
        } else {
            None
        }
    }
}

} // verus!
