//! The PIL program and the proof-parameter declarations.

use crate::expression::Expression;
use vstd::prelude::*;

verus! {

/// A declared polynomial reference; `pol_deg` is its declared trace length.
#[derive(Clone, Copy, Debug, PartialEq, Eq)]
pub struct Reference {
    pub pol_deg: usize,
}

/// Where a declared public value is read from.
#[derive(Clone, Copy, Debug, PartialEq, Eq)]
pub enum PublicCellKind {
    /// A cell of a committed column.
    Cm,
    /// A cell of a constant column.
    Const,
    /// A cell of an intermediate expression, which needs its own
    /// calculator program.
    Im,
}

/// A declared public value.
#[derive(Clone, Copy, Debug, PartialEq, Eq)]
pub struct Public {
    pub pol_type: PublicCellKind,
    /// The column or expression the value is read from.
    pub pol_id: usize,
    /// The row it is read at.
    pub idx: usize,
    /// The public value's own id.
    pub id: usize,
}

/// One lookup-style identity. The column lists and selectors are optional
/// in the input document; a missing or empty list is a malformed identity,
/// reported by the phase that first needs it.
#[derive(Debug, PartialEq, Eq)]
pub struct PlookupIdentity {
    /// The lookup-side column expressions, by expression-table index.
    pub f: Option<Vec<usize>>,
    /// The table-side column expressions, by expression-table index.
    pub t: Option<Vec<usize>>,
    /// The lookup-side selector expression, if any.
    pub sel_f: Option<usize>,
    /// The table-side selector expression, if any.
    pub sel_t: Option<usize>,
}

/// Mathematical view of a lookup identity.
pub struct PlookupIdV {
    pub f: Option<Seq<usize>>,
    pub t: Option<Seq<usize>>,
    pub sel_f: Option<usize>,
    pub sel_t: Option<usize>,
}

impl View for PlookupIdentity {
    type V = PlookupIdV;

    open spec fn view(&self) -> PlookupIdV {
        PlookupIdV {
            f: match self.f {
                Option::Some(v) => Option::Some(v@),
                Option::None => Option::None,
            },
            t: match self.t {
                Option::Some(v) => Option::Some(v@),
                Option::None => Option::None,
            },
            sel_f: self.sel_f,
            sel_t: self.sel_t,
        }
    }
}

/// A PIL program: the expression arena, the declared polynomial references,
/// identities and public values, and the monotonically growing counters for
/// committed polynomials and quotient slots. Counters only increase; no id
/// is reused within a compilation run.
pub struct PIL {
    /// Count of committed polynomials allocated so far.
    pub n_commitments: usize,
    /// Count of quotient slots allocated so far.
    pub n_q: usize,
    /// Count of constant (preprocessed) columns.
    pub n_constants: usize,
    /// The declared polynomial references, in declaration order.
    pub references: Vec<Reference>,
    /// The expression arena, indexed by position.
    pub expressions: Vec<Expression>,
    /// The declared public values.
    pub publics: Vec<Public>,
    /// The declared lookup identities.
    pub plookup_identities: Vec<PlookupIdentity>,
}

/// Mathematical view of a PIL program.
pub struct PILV {
    pub n_commitments: usize,
    pub n_q: usize,
    pub n_constants: usize,
    pub references: Seq<Reference>,
    pub expressions: Seq<Expression>,
    pub publics: Seq<Public>,
    pub plookup_identities: Seq<PlookupIdV>,
}

impl View for PIL {
    type V = PILV;

    open spec fn view(&self) -> PILV {
        PILV {
            n_commitments: self.n_commitments,
            n_q: self.n_q,
            n_constants: self.n_constants,
            references: self.references@,
            expressions: self.expressions@,
            publics: self.publics@,
            plookup_identities: self.plookup_identities@.map_values(|pi: PlookupIdentity| pi@),
        }
    }
}

/// One proof step, declaring its own evaluation-domain exponent.
#[derive(Clone, Copy, Debug, PartialEq, Eq)]
pub struct Step {
    pub n_bits: usize,
}

/// The proof parameters: the trace-size exponent, the extended-domain
/// exponent, and the declared proof steps. Used for the degree-consistency
/// check at the compiler's entry and for the memory layout.
#[derive(Debug, PartialEq, Eq)]
pub struct StarkStruct {
    pub n_bits: usize,
    pub n_bits_ext: usize,
    pub steps: Vec<Step>,
}

} // verus!
