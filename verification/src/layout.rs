//! The memory-layout planner's core: sequential offset assignment.
//!
//! Every polynomial of a domain gets a linear offset equal to the sum of
//! the extents before it, so distinct polynomials of one domain can never
//! overlap, and the reported total buffer size is exactly the sum of all
//! extents.

use vstd::prelude::*;

verus! {

broadcast use vstd::std_specs::vec::axiom_spec_len;

/// The layout section a polynomial lives in: committed columns of the
/// first or second stage, on the base or the extended domain, and the
/// quotient slots on the extended domain.
#[derive(Clone, Copy, Debug, PartialEq, Eq)]
pub enum Section {
    Cm1N,
    Cm2N,
    Cm1Ext,
    Cm2Ext,
    QExt,
}

/// One polynomial's layout descriptor: its section, its position inside
/// the section, its value dimension and its declared degree.
#[derive(Clone, Copy, Debug, PartialEq, Eq)]
pub struct PolType {
    pub section: Section,
    pub section_pos: usize,
    pub dim: usize,
    pub deg: usize,
}

/// The sum of the first `i` extents.
pub open spec fn prefix_sum(sizes: Seq<usize>, i: int) -> int
    decreases i,
{
    if i <= 0 {
        0
    } else {
        prefix_sum(sizes, i - 1) + sizes[i - 1]
    }
}

/// Prefix sums of non-negative extents never decrease.
pub proof fn lemma_prefix_sum_monotone(sizes: Seq<usize>, i: int, j: int)
    requires
        0 <= i <= j <= sizes.len(),
    ensures
        prefix_sum(sizes, i) <= prefix_sum(sizes, j),
    decreases j,
{
    if j > i {
        lemma_prefix_sum_monotone(sizes, i, j - 1);
    }
}

/// Layout non-overlap: two distinct polynomials of one domain get disjoint
/// offset ranges `[prefix_sum(i), prefix_sum(i) + sizes[i])`.
pub proof fn lemma_layout_nonoverlap(sizes: Seq<usize>, i: int, j: int)
    requires
        0 <= i < sizes.len(),
        0 <= j < sizes.len(),
        i != j,
    ensures
        prefix_sum(sizes, i) + sizes[i] <= prefix_sum(sizes, j) || prefix_sum(sizes, j) + sizes[j]
            <= prefix_sum(sizes, i),
{
    if i < j {
        lemma_prefix_sum_monotone(sizes, i + 1, j);
    } else {
        lemma_prefix_sum_monotone(sizes, j + 1, i);
    }
}

/// Assigns each extent its offset: the sum of the extents before it. The
/// returned total is the sum of all extents; `None` exactly when that sum
/// does not fit the machine's index range.
pub fn assign_offsets(sizes: &Vec<usize>) -> (r: Option<(Vec<usize>, usize)>)
    ensures
        r is Some <==> prefix_sum(sizes@, sizes@.len() as int) <= usize::MAX,
        (match r {
            Some(p) => p.0@.len() == sizes@.len() && (forall|i: int|
                0 <= i < sizes@.len() ==> p.0@[i] as int == prefix_sum(sizes@, i)) && p.1 as int
                == prefix_sum(sizes@, sizes@.len() as int),
            None => true,
        }),
{
    let mut offs: Vec<usize> = Vec::new();
    let mut acc: usize = 0;
    let mut i: usize = 0;
    while i < sizes.len()
        invariant
            i <= sizes@.len(),
            offs@.len() == i,
            acc as int == prefix_sum(sizes@, i as int),
            forall|j: int| 0 <= j < i ==> offs@[j] as int == prefix_sum(sizes@, j),
        decreases sizes@.len() - i,
    {
        offs.push(acc);
        let s = sizes[i];
        if s > usize::MAX - acc {
            proof {
                lemma_prefix_sum_monotone(sizes@, i as int + 1, sizes@.len() as int);
            }
            return None;
        }
        acc = acc + s;
        i += 1;
    }
    Some((offs, acc))
}

} // verus!
