//! The string element kind.
//!
//! A [`PackedString`] is an independently owned piece of text, stored as
//! bytes. Unlike the numeric element kinds it is not trivially copyable:
//! copying an array of strings element by element must invoke each string's
//! own copy operation, never a raw byte copy, because each value owns an
//! allocation of its own. Strings are ordered lexicographically by byte,
//! which is what drives `sort` and `bsearch` on a string array.

use vstd::prelude::*;

use crate::array::PackedArray;
use crate::element::{Cmp, PackedElement};

verus! {

/// An independently owned string value, ordered lexicographically by byte.
pub struct PackedString {
    bytes: Vec<u8>,
}

/// Packed array of string elements.
pub type PackedStringArray = PackedArray<PackedString>;

impl View for PackedString {
    type V = Seq<u8>;

    closed spec fn view(&self) -> Seq<u8> {
        self.bytes@
    }
}

impl PackedString {
    /// A string over the given bytes.
    pub fn from_bytes(bytes: Vec<u8>) -> (r: Self)
        ensures
            r@ == bytes@,
    {
        PackedString { bytes }
    }

    /// The text as a borrowed byte window.
    pub fn as_bytes(&self) -> (r: &[u8])
        ensures
            r@ == self@,
    {
        self.bytes.as_slice()
    }

    /// How many bytes the string holds.
    pub fn len(&self) -> (r: usize)
        ensures
            r == self@.len(),
    {
        self.bytes.len()
    }
}

/// Lexicographic byte order on string values: the total order of the string
/// element kind.
pub open spec fn lex_le(a: Seq<u8>, b: Seq<u8>) -> bool
    decreases a.len(),
{
    if a.len() == 0 {
        true
    } else if b.len() == 0 {
        false
    } else if a[0] < b[0] {
        true
    } else if b[0] < a[0] {
        false
    } else {
        lex_le(a.drop_first(), b.drop_first())
    }
}

/// Any two string values are ordered one way or the other.
pub proof fn lemma_lex_total(a: Seq<u8>, b: Seq<u8>)
    ensures
        lex_le(a, b) || lex_le(b, a),
    decreases a.len(),
{
    if a.len() > 0 && b.len() > 0 && a[0] == b[0] {
        lemma_lex_total(a.drop_first(), b.drop_first());
    }
}

/// Strings ordered both ways are the same string.
pub proof fn lemma_lex_antisymmetric(a: Seq<u8>, b: Seq<u8>)
    requires
        lex_le(a, b),
        lex_le(b, a),
    ensures
        a == b,
    decreases a.len(),
{
    if a.len() == 0 {
        assert(b.len() == 0);
        assert(a =~= b);
    } else {
        assert(b.len() > 0);
        assert(a[0] == b[0]);
        lemma_lex_antisymmetric(a.drop_first(), b.drop_first());
        assert forall|i: int| 0 <= i < a.len() implies a[i] == b[i] by {
            if i > 0 {
                assert(a.drop_first()[i - 1] == b.drop_first()[i - 1]);
            }
        }
        assert(a =~= b);
    }
}

/// The lexicographic order is transitive.
pub proof fn lemma_lex_transitive(a: Seq<u8>, b: Seq<u8>, c: Seq<u8>)
    requires
        lex_le(a, b),
        lex_le(b, c),
    ensures
        lex_le(a, c),
    decreases a.len(),
{
    if a.len() > 0 {
        assert(b.len() > 0);
        assert(c.len() > 0);
        if a[0] < b[0] {
            assert(b[0] <= c[0]);
            assert(a[0] < c[0]);
        } else {
            assert(a[0] == b[0]);
            if b[0] < c[0] {
                assert(a[0] < c[0]);
            } else {
                assert(b[0] == c[0]);
                lemma_lex_transitive(a.drop_first(), b.drop_first(), c.drop_first());
            }
        }
    }
}

/// A string that agrees with another on a prefix and is smaller at the first
/// difference, or runs out first, comes strictly earlier in the order.
proof fn lemma_lex_at_difference(a: Seq<u8>, b: Seq<u8>, i: int)
    requires
        0 <= i <= a.len(),
        i <= b.len(),
        forall|k: int| 0 <= k < i ==> a[k] == b[k],
        (i < a.len() && i < b.len() && a[i] < b[i]) || (i == a.len() && i < b.len()),
    ensures
        lex_le(a, b),
        a != b,
    decreases i,
{
    if i == 0 {
        if a.len() == 0 {
            assert(b.len() > 0);
            assert(a.len() != b.len());
        } else {
            assert(a[0] < b[0]);
        }
    } else {
        assert(a[0] == b[0]);
        lemma_lex_at_difference(a.drop_first(), b.drop_first(), i - 1);
        assert(a.drop_first() != b.drop_first());
        if a == b {
            assert(a.drop_first() =~= b.drop_first());
        }
    }
}

impl PackedElement for PackedString {
    /// Strings pass through call argument slots as owned values.
    type Arg = PackedString;

    open spec fn le(a: Seq<u8>, b: Seq<u8>) -> bool {
        lex_le(a, b)
    }

    open spec fn default_view() -> Seq<u8> {
        Seq::<u8>::empty()
    }

    open spec fn arg_of(v: Seq<u8>) -> Seq<u8> {
        v
    }

    open spec fn of_arg(a: Seq<u8>) -> Seq<u8> {
        a
    }

    proof fn le_total(a: Seq<u8>, b: Seq<u8>) {
        lemma_lex_total(a, b);
    }

    proof fn le_transitive(a: Seq<u8>, b: Seq<u8>, c: Seq<u8>) {
        lemma_lex_transitive(a, b, c);
    }

    proof fn le_antisymmetric(a: Seq<u8>, b: Seq<u8>) {
        lemma_lex_antisymmetric(a, b);
    }

    proof fn arg_round_trip(v: Seq<u8>) {
    }

    fn default_elem() -> (r: Self) {
        let r = PackedString { bytes: Vec::new() };
        proof {
            assert(r@ =~= Seq::<u8>::empty());
        }
        r
    }

    fn copy_elem(&self) -> (r: Self) {
        let n = self.bytes.len();
        let mut out: Vec<u8> = Vec::new();
        let mut i: usize = 0;
        while i < n
            invariant
                i <= n,
                n == self.bytes@.len(),
                out@ == self.bytes@.take(i as int),
            decreases n - i,
        {
            out.push(self.bytes[i]);
            proof {
                assert(out@ =~= self.bytes@.take(i as int + 1));
            }
            i = i + 1;
        }
        let r = PackedString { bytes: out };
        proof {
            assert(r@ =~= self@);
        }
        r
    }

    fn compare(&self, other: &Self) -> (c: Cmp) {
        let n1 = self.bytes.len();
        let n2 = other.bytes.len();
        let m = if n1 < n2 {
            n1
        } else {
            n2
        };
        let mut i: usize = 0;
        while i < m
            invariant
                i <= m,
                m <= self.bytes@.len(),
                m <= other.bytes@.len(),
                forall|k: int| 0 <= k < i ==> self.bytes@[k] == other.bytes@[k],
            decreases m - i,
        {
            let x = self.bytes[i];
            let y = other.bytes[i];
            if x < y {
                proof {
                    lemma_lex_at_difference(self@, other@, i as int);
                }
                return Cmp::Less;
            }
            if y < x {
                proof {
                    lemma_lex_at_difference(other@, self@, i as int);
                }
                return Cmp::Greater;
            }
            i = i + 1;
        }
        if n1 == n2 {
            proof {
                assert(self@ =~= other@);
            }
            Cmp::Equal
        } else if n1 < n2 {
            proof {
                lemma_lex_at_difference(self@, other@, n1 as int);
            }
            Cmp::Less
        } else {
            proof {
                lemma_lex_at_difference(other@, self@, n2 as int);
            }
            Cmp::Greater
        }
    }

    fn to_arg(&self) -> (r: PackedString) {
        self.copy_elem()
    }

    fn from_arg(arg: PackedString) -> (r: Self) {
        arg
    }

    fn slot_bytes() -> (r: usize) {
        24
    }
}

} // verus!
