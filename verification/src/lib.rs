//! Packed arrays: space-efficient sequence types with value semantics.
//!
//! A [`array::PackedArray`] wraps exactly one storage handle and offers the
//! full value-level operation set: push, insert, remove, search, sort,
//! sub-ranges, bulk extension from an element producer, and, on the byte
//! specialization, a fixed-width byte codec, a tagged-value codec and
//! compression. The storage lives behind the entry points of [`host`], which
//! mirror a host engine's array interface: sizes travel as `i64` and
//! failures are reported through sentinel values. Every sentinel is
//! translated into an `Option` or `Result` at the public boundary.
//!
//! Arrays are values: a copy is independent of its source, and mutating one
//! never observably affects another. A host may back copies with shared
//! copy-on-write storage; soundness then rests on the stated precondition
//! that no uncontrolled writer touches the same storage concurrently, which
//! no library can enforce from within.

use vstd::prelude::*;

pub mod array;
pub mod bytes;
pub mod compress;
pub mod element;
pub mod errors;
pub mod extend;
pub mod field_var;
pub mod host;
pub mod strings;
pub mod variant;

verus! {

} // verus!
