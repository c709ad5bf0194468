//! Error taxonomy of the compiler.
//!
//! Every error is fatal to the compilation run: no phase recovers locally,
//! and no partial metadata or program bundle is exposed on failure.

use vstd::prelude::*;

verus! {

/// A fatal compilation error, carrying the offending ids or values.
#[derive(Clone, Copy, Debug, PartialEq, Eq)]
pub enum CompileError {
    /// Two declared sizes that must agree disagree; carries both values.
    MustEqualDegree(usize, usize),
    /// An expression-table entry or reference that cannot be resolved:
    /// either the index is out of range, or the entry is not well formed
    /// (it holds a fold seed, or references an entry that did not exist
    /// when it was added). Carries the offending index.
    UnresolvedReference(usize),
    /// A declared identity is missing a required field, or declares an
    /// empty column list. Carries the identity's position.
    MalformedIdentity(usize),
    /// A compiled segment or a planned buffer layout outgrew the
    /// machine's index range.
    TooLarge,
}

} // verus!
