//! Python-style comprehensions compiled to lazy iterator pipelines.
//!
//! A comprehension such as `(a, b); for a in xs; if a > 1; for b in ys` is
//! parsed into a yield expression and a sequence of clauses, lowered into a
//! nested pipeline of `map`, `filter_map`, `flat_map` and `flatten` stages, and
//! emitted as the Rust source of that pipeline. The meaning of both forms is
//! given by [`semantics`], where the pipeline is proved to behave exactly as the
//! nested loops it replaces.
use vstd::prelude::*;

pub mod clause;
pub mod text;
pub mod split;
pub mod parse;
pub mod lower;
pub mod emit;
pub mod semantics;
pub mod laws;

pub use clause::{Clause, Comprehension};
pub use emit::{compile, emit};
pub use lower::{Guard, Pipeline, lower};
pub use parse::{ParseError, parse};

verus! {

/// Compile-time check that the value handed to a `for` clause can be iterated.
///
/// Emitted pipelines call this on each `for` source, so that a source which is
/// not iterable is rejected at the clause that names it.
#[inline(always)]
pub fn __py_comp_assert_impl_into_iter<T: IntoIterator>(_iterable: &T) {
}

} // verus!
