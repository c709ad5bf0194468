//! The protocol metadata object, the compiled-program bundle, and the
//! protocol phase compilers with their orchestrator.

use crate::codegen::{
    build_code, ctx_inv, empty_ctx, gen_inv, lemma_gen_inv, pil_code_gen, s_code_gen, Context,
    ContextV, SegV, Segment,
};
use crate::errors::CompileError;
use crate::expression::{
    expr_wf, fold_lookup_columns, fold_table_columns, lemma_fold_wf, lemma_table_wf_push,
    lemma_wf_ops, s_add, s_fold_lookup, s_fold_table, s_mul, s_sub, table_first_bad, table_wf,
    table_wf_check, ChallengeTag, Expr, Expression,
};
use crate::layout::{assign_offsets, lemma_prefix_sum_monotone, prefix_sum, PolType, Section};
use crate::rewrite::{renumber_refs, s_renumber};
use crate::types::{PIL, PlookupIdV, Public, PublicCellKind, StarkStruct};
use vstd::prelude::*;

verus! {

broadcast use vstd::std_specs::vec::axiom_spec_len;

/// Links one lookup/permutation-style argument instance to the ids of its
/// accumulator expressions, its two helper columns, and placeholder slots
/// that later phases fill.
#[derive(Clone, Copy, Debug, PartialEq, Eq, Default)]
pub struct PCCTX {
    pub f_exp_id: usize,
    pub t_exp_id: usize,
    pub h1_id: usize,
    pub h2_id: usize,
    pub z_id: usize,
    pub c1_id: usize,
    pub c2_id: usize,
    pub num_id: usize,
    pub den_id: usize,
}

/// The bundle of compiled segments, one slot per protocol phase. The
/// public-value calculators are a list, one per intermediate-expression
/// public value; the rest are singletons.
#[derive(Debug, PartialEq, Eq)]
pub struct Program {
    pub publics_code: Vec<Segment>,
    pub step2prev: Segment,
    pub step3prev: Segment,
    pub step3: Segment,
    pub step42ns: Segment,
    pub step52ns: Segment,
    pub verifier_code: Segment,
    pub verifier_query_code: Segment,
}

/// Mathematical view of the program bundle.
#[verifier::ext_equal]
pub struct ProgramV {
    pub publics_code: Seq<SegV>,
    pub step2prev: SegV,
    pub step3prev: SegV,
    pub step3: SegV,
    pub step42ns: SegV,
    pub step52ns: SegV,
    pub verifier_code: SegV,
    pub verifier_query_code: SegV,
}

impl View for Program {
    type V = ProgramV;

    open spec fn view(&self) -> ProgramV {
        ProgramV {
            publics_code: self.publics_code@.map_values(|s: Segment| s@),
            step2prev: self.step2prev@,
            step3prev: self.step3prev@,
            step3: self.step3@,
            step42ns: self.step42ns@,
            step52ns: self.step52ns@,
            verifier_code: self.verifier_code@,
            verifier_query_code: self.verifier_query_code@,
        }
    }
}

/// The view of an empty segment.
pub open spec fn empty_seg() -> SegV {
    SegV { ops: Seq::empty(), tmp_used: 0 }
}

impl Segment {
    /// An empty segment: no operations, no temporaries.
    pub fn empty() -> (r: Segment)
        ensures
            r@ == empty_seg(),
    {
        let r = Segment { ops: Vec::new(), tmp_used: 0 };
        proof {
            assert(r@ =~= empty_seg());
        }
        r
    }
}

impl Program {
    /// A program bundle with every slot still empty.
    pub fn empty() -> (r: Program)
        ensures
            r@.publics_code == Seq::<SegV>::empty(),
            r@.step2prev == empty_seg(),
            r@.step3prev == empty_seg(),
            r@.step3 == empty_seg(),
            r@.step42ns == empty_seg(),
            r@.step52ns == empty_seg(),
            r@.verifier_code == empty_seg(),
            r@.verifier_query_code == empty_seg(),
    {
        let r = Program {
            publics_code: Vec::new(),
            step2prev: Segment::empty(),
            step3prev: Segment::empty(),
            step3: Segment::empty(),
            step42ns: Segment::empty(),
            step52ns: Segment::empty(),
            verifier_code: Segment::empty(),
            verifier_query_code: Segment::empty(),
        };
        proof {
            assert(r@.publics_code =~= Seq::<SegV>::empty());
        }
        r
    }
}

/// The final metadata object: stage column counts, the argument contexts,
/// the public values, and the memory layout of both evaluation domains.
#[derive(Debug, PartialEq, Eq)]
pub struct StarkInfo {
    /// One layout descriptor per committed polynomial.
    pub var_pol_map: Vec<PolType>,
    /// Committed polynomials declared by the input program (stage one).
    pub n_cm1: usize,
    /// Committed polynomials introduced by the lookup phase (stage two).
    pub n_cm2: usize,
    /// One context per lookup-argument instance.
    pub pu_ctx: Vec<PCCTX>,
    /// Contexts of the permutation-argument family.
    pub pe_ctx: Vec<PCCTX>,
    /// Contexts of the connection-argument family.
    pub ci_ctx: Vec<PCCTX>,
    pub n_constants: usize,
    pub n_publics: usize,
    pub publics: Vec<Public>,
    /// Per-polynomial offsets into the base-domain buffer.
    pub map_offsets_n: Vec<usize>,
    /// Per-polynomial offsets into the extended-domain buffer.
    pub map_offsets_2ns: Vec<usize>,
    /// Total base-domain buffer size.
    pub map_total_n: usize,
    /// Total extended-domain buffer size.
    pub map_total_2ns: usize,
}

/// Mathematical view of the metadata object.
#[verifier::ext_equal]
pub struct StarkInfoV {
    pub var_pol_map: Seq<PolType>,
    pub n_cm1: usize,
    pub n_cm2: usize,
    pub pu_ctx: Seq<PCCTX>,
    pub pe_ctx: Seq<PCCTX>,
    pub ci_ctx: Seq<PCCTX>,
    pub n_constants: usize,
    pub n_publics: usize,
    pub publics: Seq<Public>,
    pub map_offsets_n: Seq<usize>,
    pub map_offsets_2ns: Seq<usize>,
    pub map_total_n: usize,
    pub map_total_2ns: usize,
}

impl View for StarkInfo {
    type V = StarkInfoV;

    open spec fn view(&self) -> StarkInfoV {
        StarkInfoV {
            var_pol_map: self.var_pol_map@,
            n_cm1: self.n_cm1,
            n_cm2: self.n_cm2,
            pu_ctx: self.pu_ctx@,
            pe_ctx: self.pe_ctx@,
            ci_ctx: self.ci_ctx@,
            n_constants: self.n_constants,
            n_publics: self.n_publics,
            publics: self.publics@,
            map_offsets_n: self.map_offsets_n@,
            map_offsets_2ns: self.map_offsets_2ns@,
            map_total_n: self.map_total_n,
            map_total_2ns: self.map_total_2ns,
        }
    }
}

/// The standalone calculator compiled for one intermediate-expression
/// public value: its entry is lowered into a fresh context and the result
/// renumbered into a private temporary namespace.
pub open spec fn s_public_segment(exprs: Seq<Expression>, pol_id: usize) -> SegV {
    let st = s_code_gen(exprs, pol_id, false, empty_ctx());
    let r = s_renumber(st.code, Seq::empty(), st.tmp_used);
    SegV { ops: r.0, tmp_used: r.2 as usize }
}

/// The renumbered temporary indices of this calculator stay within the
/// machine's range.
pub open spec fn s_public_fits(exprs: Seq<Expression>, pol_id: usize) -> bool {
    let st = s_code_gen(exprs, pol_id, false, empty_ctx());
    st.tmp_used + 3 * st.code.len() + 3 <= usize::MAX
}

/// The public-calculator phase over a well-formed table: one standalone
/// segment per intermediate-expression public value, in declaration order;
/// the first failure aborts the phase.
pub open spec fn s_publics(publics: Seq<Public>, exprs: Seq<Expression>) -> Result<
    Seq<SegV>,
    CompileError,
>
    decreases publics.len(),
{
    if publics.len() == 0 {
        Ok(Seq::empty())
    } else {
        match s_publics(publics.drop_last(), exprs) {
            Ok(segs) => {
                let p = publics.last();
                if p.pol_type is Im {
                    if p.pol_id >= exprs.len() {
                        Err(CompileError::UnresolvedReference(p.pol_id))
                    } else if !s_public_fits(exprs, p.pol_id) {
                        Err(CompileError::TooLarge)
                    } else {
                        Ok(segs.push(s_public_segment(exprs, p.pol_id)))
                    }
                } else {
                    Ok(segs)
                }
            },
            Err(e) => Err(e),
        }
    }
}

/// A sequence is a prefix of itself extended.
proof fn lemma_prefix_concat<T>(a: Seq<T>, b: Seq<T>)
    ensures
        a.is_prefix_of(a + b),
{
    assert((a + b).subrange(0, a.len() as int) =~= a);
}

/// A sequence is a prefix of itself.
proof fn lemma_prefix_refl<T>(a: Seq<T>)
    ensures
        a.is_prefix_of(a),
{
    assert(a.subrange(0, a.len() as int) =~= a);
}

/// A failure on a prefix of the public values is the failure of the whole
/// phase.
proof fn lemma_publics_prefix_err(publics: Seq<Public>, exprs: Seq<Expression>, j: int)
    requires
        0 <= j <= publics.len(),
        s_publics(publics.take(j), exprs) is Err,
    ensures
        s_publics(publics, exprs) == s_publics(publics.take(j), exprs),
    decreases publics.len() - j,
{
    if j == publics.len() {
        assert(publics.take(j) =~= publics);
    } else {
        assert(publics.take(j + 1).drop_last() =~= publics.take(j));
        lemma_publics_prefix_err(publics, exprs, j + 1);
    }
}

/// All column ids fall below `bound`.
pub open spec fn cols_ok(cols: Seq<usize>, bound: int) -> bool {
    forall|k: int| 0 <= k < cols.len() ==> (#[trigger] cols[k] as int) < bound
}

/// The first out-of-range column id at or after position `k`; meaningful
/// only when one exists.
pub open spec fn cols_first_bad(cols: Seq<usize>, bound: int, k: int) -> usize
    decreases cols.len() - k,
{
    if k < 0 || k >= cols.len() {
        0
    } else if cols[k] as int >= bound {
        cols[k]
    } else {
        cols_first_bad(cols, bound, k + 1)
    }
}

/// Checks that every column id falls below `bound`, reporting the first
/// that does not.
fn check_cols(cols: &Vec<usize>, bound: usize) -> (r: Option<usize>)
    ensures
        r is None <==> cols_ok(cols@, bound as int),
        (match r {
            Some(x) => !cols_ok(cols@, bound as int) && x == cols_first_bad(
                cols@,
                bound as int,
                0,
            ),
            None => true,
        }),
{
    let mut k: usize = 0;
    while k < cols.len()
        invariant
            k <= cols@.len(),
            forall|j: int| 0 <= j < k ==> (#[trigger] cols@[j] as int) < bound as int,
            cols_first_bad(cols@, bound as int, 0) == cols_first_bad(cols@, bound as int, k as int),
        decreases cols@.len() - k,
    {
        if cols[k] >= bound {
            return Some(cols[k]);
        }
        k += 1;
    }
    None
}

/// The table-side accumulator entry of one lookup identity: the folded
/// columns, blended with the default value through the selector when one
/// is declared (which also claims the quotient slot `n_q`), marked for
/// materialization.
pub open spec fn s_t_expr(tcols: Seq<usize>, sel_t: Option<usize>, n_q: int) -> Expression {
    let t0 = s_fold_table(tcols);
    match sel_t {
        Some(sel) => Expression {
            expr: s_add(
                s_mul(
                    s_sub(t0, Expr::Challenge { tag: ChallengeTag::DefVal }),
                    Expr::ExpRef { id: sel, prime: false },
                ),
                Expr::Challenge { tag: ChallengeTag::DefVal },
            ),
            id_q: Some(n_q as usize),
            keep: true,
        },
        None => Expression { expr: t0, id_q: None, keep: true },
    }
}

/// The lookup-side accumulator entry: the folded columns, blended against
/// the table expression through the selector when one is declared.
pub open spec fn s_f_expr(fcols: Seq<usize>, sel_f: Option<usize>, t_exp_id: usize, n_q: int) -> Expression {
    let f0 = s_fold_lookup(fcols);
    match sel_f {
        Some(sel) => Expression {
            expr: s_add(
                s_mul(
                    s_sub(f0, Expr::ExpRef { id: t_exp_id, prime: false }),
                    Expr::ExpRef { id: sel, prime: false },
                ),
                Expr::ExpRef { id: t_exp_id, prime: false },
            ),
            id_q: Some(n_q as usize),
            keep: true,
        },
        None => Expression { expr: f0, id_q: None, keep: true },
    }
}

/// The compilation state the lookup phase threads across the identities.
#[verifier::ext_equal]
pub struct Step2State {
    pub exprs: Seq<Expression>,
    pub n_q: int,
    pub n_cm: int,
    pub pu: Seq<PCCTX>,
    pub st: ContextV,
}

/// The initial lookup-phase state, read off the program and a codegen
/// context.
pub open spec fn s_step2_init(pil: crate::types::PILV, st0: ContextV) -> Step2State {
    Step2State {
        exprs: pil.expressions,
        n_q: pil.n_q as int,
        n_cm: pil.n_commitments as int,
        pu: Seq::empty(),
        st: st0,
    }
}

/// One lookup identity: validate it, register its two accumulator
/// expressions (table side first), lower both (lookup side first),
/// allocate the two helper columns, and record the argument context.
pub open spec fn s_step2_one(pi: PlookupIdV, idx: usize, s: Step2State) -> Result<
    Step2State,
    CompileError,
> {
    match (pi.t, pi.f) {
        (Some(tcols), Some(fcols)) => {
            if tcols.len() == 0 || fcols.len() == 0 {
                Err(CompileError::MalformedIdentity(idx))
            } else if !cols_ok(tcols, s.exprs.len() as int) {
                Err(
                    CompileError::UnresolvedReference(
                        cols_first_bad(tcols, s.exprs.len() as int, 0),
                    ),
                )
            } else if pi.sel_t is Some && pi.sel_t->Some_0 as int >= s.exprs.len() {
                Err(CompileError::UnresolvedReference(pi.sel_t->Some_0))
            } else if !cols_ok(fcols, s.exprs.len() as int + 1) {
                Err(
                    CompileError::UnresolvedReference(
                        cols_first_bad(fcols, s.exprs.len() as int + 1, 0),
                    ),
                )
            } else if pi.sel_f is Some && pi.sel_f->Some_0 as int >= s.exprs.len() + 1 {
                Err(CompileError::UnresolvedReference(pi.sel_f->Some_0))
            } else {
                let t_id = s.exprs.len() as usize;
                let t_entry = s_t_expr(tcols, pi.sel_t, s.n_q);
                let nq1 = if pi.sel_t is Some {
                    s.n_q + 1
                } else {
                    s.n_q
                };
                let exprs1 = s.exprs.push(t_entry);
                let f_id = (s.exprs.len() + 1) as usize;
                let f_entry = s_f_expr(fcols, pi.sel_f, t_id, nq1);
                let nq2 = if pi.sel_f is Some {
                    nq1 + 1
                } else {
                    nq1
                };
                let exprs2 = exprs1.push(f_entry);
                let st1 = s_code_gen(exprs2, f_id, false, s.st);
                let st2 = s_code_gen(exprs2, t_id, false, st1);
                Ok(
                    Step2State {
                        exprs: exprs2,
                        n_q: nq2,
                        n_cm: s.n_cm + 2,
                        pu: s.pu.push(
                            PCCTX {
                                f_exp_id: f_id,
                                t_exp_id: t_id,
                                h1_id: s.n_cm as usize,
                                h2_id: (s.n_cm + 1) as usize,
                                z_id: 0,
                                c1_id: 0,
                                c2_id: 0,
                                num_id: 0,
                                den_id: 0,
                            },
                        ),
                        st: st2,
                    },
                )
            }
        },
        _ => Err(CompileError::MalformedIdentity(idx)),
    }
}

/// The lookup phase over all declared identities, in declaration order;
/// the first failure aborts the phase.
pub open spec fn s_step2_ids(ids: Seq<PlookupIdV>, s0: Step2State) -> Result<
    Step2State,
    CompileError,
>
    decreases ids.len(),
{
    if ids.len() == 0 {
        Ok(s0)
    } else {
        match s_step2_ids(ids.drop_last(), s0) {
            Ok(s) => s_step2_one(ids.last(), (ids.len() - 1) as usize, s),
            Err(e) => Err(e),
        }
    }
}

/// A failure on a prefix of the identities is the failure of the whole
/// phase.
proof fn lemma_step2_prefix_err(ids: Seq<PlookupIdV>, s0: Step2State, j: int)
    requires
        0 <= j <= ids.len(),
        s_step2_ids(ids.take(j), s0) is Err,
    ensures
        s_step2_ids(ids, s0) == s_step2_ids(ids.take(j), s0),
    decreases ids.len() - j,
{
    if j == ids.len() {
        assert(ids.take(j) =~= ids);
    } else {
        assert(ids.take(j + 1).drop_last() =~= ids.take(j));
        lemma_step2_prefix_err(ids, s0, j + 1);
    }
}

/// Counter bookkeeping of the lookup phase: for N identities the
/// committed-polynomial counter grows by exactly 2N, the quotient-slot
/// counter by at most 2N and never down, and the expression table by
/// exactly 2N entries.
pub proof fn lemma_step2_counters(ids: Seq<PlookupIdV>, s0: Step2State)
    ensures
        s_step2_ids(ids, s0) is Ok ==> {
            let s = s_step2_ids(ids, s0)->Ok_0;
            &&& s.n_cm == s0.n_cm + 2 * ids.len()
            &&& s0.n_q <= s.n_q <= s0.n_q + 2 * ids.len()
            &&& s.exprs.len() == s0.exprs.len() + 2 * ids.len()
            &&& s.pu.len() == s0.pu.len() + ids.len()
        },
    decreases ids.len(),
{
    if ids.len() > 0 {
        lemma_step2_counters(ids.drop_last(), s0);
    }
}

/// No committed-polynomial id is reused: the helper columns of the k-th
/// argument instance are exactly the two ids allocated at that instance,
/// so the instances' id pairs are pairwise disjoint and strictly
/// increasing.
pub proof fn lemma_step2_ids_fresh(ids: Seq<PlookupIdV>, s0: Step2State, k: int)
    requires
        s_step2_ids(ids, s0) is Ok,
        s0.pu.len() == 0,
        0 <= s0.n_cm,
        s0.n_cm + 2 * ids.len() <= usize::MAX,
        0 <= k < ids.len(),
    ensures
        s_step2_ids(ids, s0)->Ok_0.pu[k].h1_id as int == s0.n_cm + 2 * k,
        s_step2_ids(ids, s0)->Ok_0.pu[k].h2_id as int == s0.n_cm + 2 * k + 1,
    decreases ids.len(),
{
    let pre = s_step2_ids(ids.drop_last(), s0);
    assert(pre is Ok);
    let sp = pre->Ok_0;
    lemma_step2_counters(ids.drop_last(), s0);
    assert(sp.pu.len() == ids.len() - 1);
    let r = s_step2_one(ids.last(), (ids.len() - 1) as usize, sp);
    assert(s_step2_ids(ids, s0) == r);
    let s = r->Ok_0;
    assert(s.pu.last().h1_id as int == sp.n_cm && s.pu.last().h2_id as int == sp.n_cm + 1);
    assert(s.pu.drop_last() =~= sp.pu);
    if k < ids.len() - 1 {
        lemma_step2_ids_fresh(ids.drop_last(), s0, k);
        assert(s.pu[k] == sp.pu[k]);
    }
}


/// Memoization correctness across the whole lookup phase: starting from a
/// context that satisfies the generator's memoization invariant, the
/// compiled step-two program still materializes every
/// (entry, row-shift) key at most once.
pub proof fn lemma_step2_memoization(ids: Seq<PlookupIdV>, s0: Step2State)
    requires
        gen_inv(s0.st),
        s_step2_ids(ids, s0) is Ok,
    ensures
        gen_inv(s_step2_ids(ids, s0)->Ok_0.st),
    decreases ids.len(),
{
    if ids.len() > 0 {
        lemma_step2_memoization(ids.drop_last(), s0);
        let sp = s_step2_ids(ids.drop_last(), s0)->Ok_0;
        let pi = ids.last();
        let tcols = pi.t->Some_0;
        let fcols = pi.f->Some_0;
        let t_id = sp.exprs.len() as usize;
        let t_entry = s_t_expr(tcols, pi.sel_t, sp.n_q);
        let nq1 = if pi.sel_t is Some {
            sp.n_q + 1
        } else {
            sp.n_q
        };
        let exprs1 = sp.exprs.push(t_entry);
        let f_id = (sp.exprs.len() + 1) as usize;
        let f_entry = s_f_expr(fcols, pi.sel_f, t_id, nq1);
        let exprs2 = exprs1.push(f_entry);
        let st1 = s_code_gen(exprs2, f_id, false, sp.st);
        lemma_gen_inv(exprs2, f_id, false, sp.st);
        lemma_gen_inv(exprs2, t_id, false, st1);
        assert(s_step2_ids(ids, s0)->Ok_0.st == s_code_gen(exprs2, t_id, false, st1));
    }
}

impl StarkInfo {
    /// Compiles one standalone calculator segment for every public value
    /// read from an intermediate expression. Each calculator is lowered in
    /// a context of its own and renumbered into a private temporary
    /// namespace, so it can run with no access to the expression table.
    pub fn generate_pubulic_calculators(&self, pil: &PIL, program: &mut Program) -> (r: Result<
        (),
        CompileError,
    >)
        ensures
            ({
                let exprs = pil@.expressions;
                if table_wf(exprs) {
                    match s_publics(pil@.publics, exprs) {
                        Ok(segs) => r is Ok && final(program)@ == (ProgramV {
                            publics_code: old(program)@.publics_code + segs,
                            ..old(program)@
                        }),
                        Err(e) => r == Err::<(), CompileError>(e),
                    }
                } else {
                    r == Err::<(), CompileError>(
                        CompileError::UnresolvedReference(table_first_bad(exprs, 0)),
                    )
                }
            }),
            final(program)@ == (ProgramV {
                publics_code: final(program)@.publics_code,
                ..old(program)@
            }),
            old(program)@.publics_code.is_prefix_of(final(program)@.publics_code),
    {
        match table_wf_check(&pil.expressions) {
            Some(i) => {
                proof {
                    assert(program@ =~= (ProgramV {
                        publics_code: program@.publics_code,
                        ..old(program)@
                    }));
                    lemma_prefix_refl(old(program)@.publics_code);
                }
                return Err(CompileError::UnresolvedReference(i));
            },
            None => {},
        }
        let ghost exprs = pil@.expressions;
        let ghost prog0 = program@;
        let n = pil.publics.len();
        let mut i: usize = 0;
        proof {
            assert(pil@.publics.take(0) =~= Seq::<Public>::empty());
            assert(program@ =~= (ProgramV {
                publics_code: prog0.publics_code + Seq::<SegV>::empty(),
                ..prog0
            }));
        }
        while i < n
            invariant
                i <= n,
                n == pil@.publics.len(),
                exprs == pil@.expressions,
                prog0 == old(program)@,
                table_wf(exprs),
                s_publics(pil@.publics.take(i as int), exprs) is Ok,
                program@ == (ProgramV {
                    publics_code: prog0.publics_code + s_publics(
                        pil@.publics.take(i as int),
                        exprs,
                    )->Ok_0,
                    ..prog0
                }),
            decreases n - i,
        {
            let p = pil.publics[i];
            proof {
                assert(pil@.publics.take(i as int + 1).drop_last() =~= pil@.publics.take(i as int));
                assert(pil@.publics.take(i as int + 1).last() == p);
            }
            if matches!(p.pol_type, PublicCellKind::Im) {
                if p.pol_id >= pil.expressions.len() {
                    proof {
                        lemma_publics_prefix_err(pil@.publics, exprs, i as int + 1);
                        assert(program@ =~= (ProgramV {
                            publics_code: program@.publics_code,
                            ..old(program)@
                        }));
                        lemma_prefix_concat(
                            prog0.publics_code,
                            s_publics(pil@.publics.take(i as int), exprs)->Ok_0,
                        );
                    }
                    return Err(CompileError::UnresolvedReference(p.pol_id));
                }
                let mut ctx = Context::empty();
                pil_code_gen(&mut ctx, &pil.expressions, p.pol_id, false);
                let mut segment = build_code(&mut ctx);
                let need: u128 = (segment.tmp_used as u128) + 3u128 * (segment.ops.len() as u128)
                    + 3u128;
                if need > (usize::MAX as u128) {
                    proof {
                        lemma_publics_prefix_err(pil@.publics, exprs, i as int + 1);
                        assert(program@ =~= (ProgramV {
                            publics_code: program@.publics_code,
                            ..old(program)@
                        }));
                        lemma_prefix_concat(
                            prog0.publics_code,
                            s_publics(pil@.publics.take(i as int), exprs)->Ok_0,
                        );
                    }
                    return Err(CompileError::TooLarge);
                }
                proof {
                    assert(s_public_fits(exprs, p.pol_id));
                }
                renumber_refs(&mut segment);
                proof {
                    assert(segment@ =~~= s_public_segment(exprs, p.pol_id));
                }
                let ghost pre = program@;
                let ghost segview = segment@;
                program.publics_code.push(segment);
                proof {
                    let segs0 = s_publics(pil@.publics.take(i as int), exprs)->Ok_0;
                    let segs1 = s_publics(pil@.publics.take(i as int + 1), exprs)->Ok_0;
                    assert(segs1 == segs0.push(s_public_segment(exprs, p.pol_id)));
                    assert(program@.publics_code =~~= pre.publics_code.push(segview));
                    assert(program@.publics_code =~~= prog0.publics_code + segs1);
                    assert(program@ =~~= (ProgramV {
                        publics_code: prog0.publics_code + segs1,
                        ..prog0
                    }));
                }
            }
            i += 1;
        }
        proof {
            assert(pil@.publics.take(n as int) =~= pil@.publics);
            lemma_prefix_concat(
                prog0.publics_code,
                s_publics(pil@.publics, exprs)->Ok_0,
            );
            assert(program@ =~= (ProgramV {
                publics_code: program@.publics_code,
                ..old(program)@
            }));
        }
        Ok(())
    }

    /// The lookup-argument phase: for every declared lookup identity,
    /// builds the table-side and lookup-side accumulator expressions as
    /// challenge-weighted folds (blended through the declared selectors),
    /// registers both in the expression table marked for materialization,
    /// lowers both into the shared context, introduces the two helper
    /// columns h1 and h2, and records the argument context. The net
    /// committed-column increase is exactly two per identity.
    pub fn generate_step2(
        &mut self,
        ctx: &mut Context,
        pil: &mut PIL,
        program: &mut Program,
    ) -> (r: Result<(), CompileError>)
        requires
            ctx_inv(old(ctx)@),
            old(pil)@.n_q + 2 * old(pil)@.plookup_identities.len() <= usize::MAX,
            old(pil)@.n_commitments + 2 * old(pil)@.plookup_identities.len() <= usize::MAX,
            old(pil)@.expressions.len() + 2 * old(pil)@.plookup_identities.len() <= usize::MAX,
            old(self)@.n_cm1 <= old(pil)@.n_commitments,
        ensures
            ({
                let pv = old(pil)@;
                if table_wf(pv.expressions) {
                    match s_step2_ids(pv.plookup_identities, s_step2_init(pv, old(ctx)@)) {
                        Ok(s) => {
                            &&& r is Ok
                            &&& final(pil)@.expressions == s.exprs
                            &&& final(pil)@.n_q as int == s.n_q
                            &&& final(pil)@.n_commitments as int == s.n_cm
                            &&& final(self)@.pu_ctx == old(self)@.pu_ctx + s.pu
                            &&& final(self)@.n_cm2 as int == s.n_cm - old(self)@.n_cm1
                            &&& final(program)@.step2prev.ops == s.st.code
                            &&& final(program)@.step2prev.tmp_used as int == s.st.tmp_used
                            &&& final(ctx)@.code.len() == 0
                            &&& final(ctx)@.calculated.len() == 0
                            &&& final(ctx)@.tmp_used == s.st.tmp_used
                        },
                        Err(e) => r == Err::<(), CompileError>(e) && final(self)@ == old(self)@
                            && final(program)@ == old(program)@,
                    }
                } else {
                    r == Err::<(), CompileError>(
                        CompileError::UnresolvedReference(table_first_bad(pv.expressions, 0)),
                    ) && final(self)@ == old(self)@ && final(program)@ == old(program)@
                        && final(pil)@ == old(pil)@
                }
            }),
            r is Ok ==> final(pil)@.n_commitments == old(pil)@.n_commitments + 2 * old(
                pil)@.plookup_identities.len(),
            final(pil)@.n_commitments >= old(pil)@.n_commitments,
            final(pil)@.n_q >= old(pil)@.n_q,
            final(pil)@.references == old(pil)@.references,
            final(pil)@.publics == old(pil)@.publics,
            final(pil)@.n_constants == old(pil)@.n_constants,
            final(pil)@.plookup_identities == old(pil)@.plookup_identities,
            final(self)@ == (StarkInfoV {
                pu_ctx: final(self)@.pu_ctx,
                n_cm2: final(self)@.n_cm2,
                ..old(self)@
            }),
            final(program)@ == (ProgramV { step2prev: final(program)@.step2prev, ..old(program)@ }),
    {
        match table_wf_check(&pil.expressions) {
            Some(i) => {
                proof {
                    assert(self@ =~~= (StarkInfoV {
                        pu_ctx: self@.pu_ctx,
                        n_cm2: self@.n_cm2,
                        ..old(self)@
                    }));
                    assert(program@ =~~= (ProgramV {
                        step2prev: program@.step2prev,
                        ..old(program)@
                    }));
                }
                return Err(CompileError::UnresolvedReference(i));
            },
            None => {},
        }
        let ghost pv = old(pil)@;
        let ghost ids = old(pil)@.plookup_identities;
        let ghost s0 = s_step2_init(old(pil)@, old(ctx)@);
        let mut pu_local: Vec<PCCTX> = Vec::new();
        let n = pil.plookup_identities.len();
        let mut i: usize = 0;
        proof {
            assert(ids.take(0) =~= Seq::<PlookupIdV>::empty());
        }
        while i < n
            invariant
                i <= n,
                n == ids.len(),
                pv == old(pil)@,
                ids == pv.plookup_identities,
                s0 == s_step2_init(pv, old(ctx)@),
                pv.n_q + 2 * n <= usize::MAX,
                pv.n_commitments + 2 * n <= usize::MAX,
                pv.expressions.len() + 2 * n <= usize::MAX,
                pil@.plookup_identities == ids,
                pil@.references == pv.references,
                pil@.publics == pv.publics,
                pil@.n_constants == pv.n_constants,
                s_step2_ids(ids.take(i as int), s0) is Ok,
                ({
                    let s = s_step2_ids(ids.take(i as int), s0)->Ok_0;
                    pil@.expressions == s.exprs && pil@.n_q as int == s.n_q && pil@.n_commitments
                        as int == s.n_cm && pu_local@ == s.pu && ctx@ == s.st
                }),
                table_wf(pv.expressions),
                pv.n_q <= pil@.n_q <= pv.n_q + 2 * i,
                pil@.n_commitments == pv.n_commitments + 2 * i,
                pil@.expressions.len() == pv.expressions.len() + 2 * i,
                table_wf(pil@.expressions),
                ctx_inv(ctx@),
            decreases n - i,
        {
            let ghost scur = s_step2_ids(ids.take(i as int), s0)->Ok_0;
            proof {
                assert(ids.take(i as int + 1).drop_last() =~= ids.take(i as int));
                assert(ids.take(i as int + 1).last() == ids[i as int]);
                assert(ids[i as int] == pil.plookup_identities@[i as int]@);
            }
            let exprs_len = pil.expressions.len();
            let pi = &pil.plookup_identities[i];
            let sel_t = pi.sel_t;
            let sel_f = pi.sel_f;
            let tcols: &Vec<usize> = match &pi.t {
                Some(v) => v,
                None => {
                    proof {
                        lemma_step2_prefix_err(ids, s0, i as int + 1);
                        assert(self@ =~~= (StarkInfoV {
                            pu_ctx: self@.pu_ctx,
                            n_cm2: self@.n_cm2,
                            ..old(self)@
                        }));
                        assert(program@ =~~= (ProgramV {
                            step2prev: program@.step2prev,
                            ..old(program)@
                        }));
                    }
                    return Err(CompileError::MalformedIdentity(i));
                },
            };
            let fcols: &Vec<usize> = match &pi.f {
                Some(v) => v,
                None => {
                    proof {
                        lemma_step2_prefix_err(ids, s0, i as int + 1);
                        assert(self@ =~~= (StarkInfoV {
                            pu_ctx: self@.pu_ctx,
                            n_cm2: self@.n_cm2,
                            ..old(self)@
                        }));
                        assert(program@ =~~= (ProgramV {
                            step2prev: program@.step2prev,
                            ..old(program)@
                        }));
                    }
                    return Err(CompileError::MalformedIdentity(i));
                },
            };
            if tcols.len() == 0 || fcols.len() == 0 {
                proof {
                    lemma_step2_prefix_err(ids, s0, i as int + 1);
                }
                return Err(CompileError::MalformedIdentity(i));
            }
            match check_cols(tcols, exprs_len) {
                Some(bad) => {
                    proof {
                        lemma_step2_prefix_err(ids, s0, i as int + 1);
                        assert(self@ =~~= (StarkInfoV {
                            pu_ctx: self@.pu_ctx,
                            n_cm2: self@.n_cm2,
                            ..old(self)@
                        }));
                        assert(program@ =~~= (ProgramV {
                            step2prev: program@.step2prev,
                            ..old(program)@
                        }));
                    }
                    return Err(CompileError::UnresolvedReference(bad));
                },
                None => {},
            }
            if let Some(sel) = sel_t {
                if sel >= exprs_len {
                    proof {
                        lemma_step2_prefix_err(ids, s0, i as int + 1);
                        assert(self@ =~~= (StarkInfoV {
                            pu_ctx: self@.pu_ctx,
                            n_cm2: self@.n_cm2,
                            ..old(self)@
                        }));
                        assert(program@ =~~= (ProgramV {
                            step2prev: program@.step2prev,
                            ..old(program)@
                        }));
                    }
                    return Err(CompileError::UnresolvedReference(sel));
                }
            }
            let bound_f = exprs_len + 1;
            match check_cols(fcols, bound_f) {
                Some(bad) => {
                    proof {
                        lemma_step2_prefix_err(ids, s0, i as int + 1);
                        assert(self@ =~~= (StarkInfoV {
                            pu_ctx: self@.pu_ctx,
                            n_cm2: self@.n_cm2,
                            ..old(self)@
                        }));
                        assert(program@ =~~= (ProgramV {
                            step2prev: program@.step2prev,
                            ..old(program)@
                        }));
                    }
                    return Err(CompileError::UnresolvedReference(bad));
                },
                None => {},
            }
            if let Some(sel) = sel_f {
                if sel >= bound_f {
                    proof {
                        lemma_step2_prefix_err(ids, s0, i as int + 1);
                        assert(self@ =~~= (StarkInfoV {
                            pu_ctx: self@.pu_ctx,
                            n_cm2: self@.n_cm2,
                            ..old(self)@
                        }));
                        assert(program@ =~~= (ProgramV {
                            step2prev: program@.step2prev,
                            ..old(program)@
                        }));
                    }
                    return Err(CompileError::UnresolvedReference(sel));
                }
            }
            // Table-side accumulator.
            let mut t_exp = fold_table_columns(tcols);
            if let Some(sel) = sel_t {
                t_exp = Expression::sub(t_exp, Expression::challenge(ChallengeTag::DefVal));
                t_exp = Expression::mul(t_exp, Expression::exp(sel, false));
                t_exp = Expression::add(t_exp, Expression::challenge(ChallengeTag::DefVal));
                t_exp.id_q = Some(pil.n_q);
                pil.n_q = pil.n_q + 1;
            }
            t_exp.keep = true;
            let t_exp_id = pil.expressions.len();
            proof {
                assert(t_exp == s_t_expr(tcols@, sel_t, scur.n_q));
                lemma_fold_wf(tcols@, t_exp_id as int);
                if sel_t is Some {
                    let t0 = s_fold_table(tcols@);
                    let dv = Expr::Challenge { tag: ChallengeTag::DefVal };
                    let se = Expr::ExpRef { id: sel_t->Some_0, prime: false };
                    lemma_wf_ops(t0, dv, t_exp_id as int);
                    lemma_wf_ops(s_sub(t0, dv), se, t_exp_id as int);
                    lemma_wf_ops(s_mul(s_sub(t0, dv), se), dv, t_exp_id as int);
                }
                assert(expr_wf(t_exp.expr, t_exp_id as int));
                lemma_table_wf_push(pil@.expressions, t_exp);
            }
            pil.expressions.push(t_exp);
            // Lookup-side accumulator.
            let mut f_exp = fold_lookup_columns(fcols);
            if let Some(sel) = sel_f {
                f_exp = Expression::sub(f_exp, Expression::exp(t_exp_id, false));
                f_exp = Expression::mul(f_exp, Expression::exp(sel, false));
                f_exp = Expression::add(f_exp, Expression::exp(t_exp_id, false));
                f_exp.id_q = Some(pil.n_q);
                pil.n_q = pil.n_q + 1;
            }
            f_exp.keep = true;
            let f_exp_id = pil.expressions.len();
            proof {
                assert(f_exp == s_f_expr(fcols@, sel_f, t_exp_id, if sel_t is Some {
                    scur.n_q + 1
                } else {
                    scur.n_q
                }));
                lemma_fold_wf(fcols@, f_exp_id as int);
                if sel_f is Some {
                    let f0 = s_fold_lookup(fcols@);
                    let te = Expr::ExpRef { id: t_exp_id, prime: false };
                    let se = Expr::ExpRef { id: sel_f->Some_0, prime: false };
                    lemma_wf_ops(f0, te, f_exp_id as int);
                    lemma_wf_ops(s_sub(f0, te), se, f_exp_id as int);
                    lemma_wf_ops(s_mul(s_sub(f0, te), se), te, f_exp_id as int);
                }
                assert(expr_wf(f_exp.expr, f_exp_id as int));
                lemma_table_wf_push(pil@.expressions, f_exp);
            }
            pil.expressions.push(f_exp);
            // Lower both accumulators, lookup side first.
            pil_code_gen(ctx, &pil.expressions, f_exp_id, false);
            pil_code_gen(ctx, &pil.expressions, t_exp_id, false);
            // The two helper columns of this argument instance.
            let h1_id = pil.n_commitments;
            pil.n_commitments = pil.n_commitments + 1;
            let h2_id = pil.n_commitments;
            pil.n_commitments = pil.n_commitments + 1;
            pu_local.push(
                PCCTX {
                    f_exp_id,
                    t_exp_id,
                    h1_id,
                    h2_id,
                    z_id: 0,
                    c1_id: 0,
                    c2_id: 0,
                    num_id: 0,
                    den_id: 0,
                },
            );
            i += 1;
            proof {
                let snext = s_step2_ids(ids.take(i as int), s0)->Ok_0;
                assert(pil@.expressions =~= snext.exprs);
                assert(pu_local@ =~= snext.pu);
                assert(ctx@ =~= snext.st);
            }
        }
        proof {
            assert(ids.take(n as int) =~= ids);
        }
        // Package the phase's program and record its bookkeeping.
        program.step2prev = build_code(ctx);
        ctx.calculated.clear();
        let ghost sfin = s_step2_ids(ids, s0)->Ok_0;
        let mut j: usize = 0;
        proof {
            assert(self.pu_ctx@ =~= old(self)@.pu_ctx + pu_local@.take(0));
            assert(self@ =~~= (StarkInfoV { pu_ctx: self@.pu_ctx, ..old(self)@ }));
        }
        while j < pu_local.len()
            invariant
                j <= pu_local@.len(),
                self.pu_ctx@ == old(self)@.pu_ctx + pu_local@.take(j as int),
                pu_local@ == sfin.pu,
                self@ == (StarkInfoV { pu_ctx: self@.pu_ctx, ..old(self)@ }),
            decreases pu_local@.len() - j,
        {
            let ghost pre = self.pu_ctx@;
            self.pu_ctx.push(pu_local[j]);
            j += 1;
            proof {
                assert(pu_local@.take(j as int).drop_last() =~= pu_local@.take(j as int - 1));
                assert(self.pu_ctx@ =~= old(self)@.pu_ctx + pu_local@.take(j as int));
                assert(self@ =~~= (StarkInfoV { pu_ctx: self@.pu_ctx, ..old(self)@ }));
            }
        }
        proof {
            assert(pu_local@.take(pu_local@.len() as int) =~= pu_local@);
        }
        self.n_cm2 = pil.n_commitments - self.n_cm1;
        proof {
            assert(self@ =~~= (StarkInfoV {
                pu_ctx: self@.pu_ctx,
                n_cm2: self@.n_cm2,
                ..old(self)@
            }));
            assert(program@ =~~= (ProgramV {
                step2prev: program@.step2prev,
                ..old(program)@
            }));
        }
        Ok(())
    }
}

/// A run of `count` polynomials of equal extent `each`.
pub open spec fn s_sizes(count: int, each: usize) -> Seq<usize> {
    Seq::new(if count >= 0 {
        count as nat
    } else {
        0
    }, |i: int| each)
}

/// The sum of `count` equal extents is their product.
pub proof fn lemma_prefix_sum_const(count: int, each: usize, i: int)
    requires
        0 <= i <= count,
    ensures
        prefix_sum(s_sizes(count, each), i) == i * each,
    decreases i,
{
    if i > 0 {
        lemma_prefix_sum_const(count, each, i - 1);
        assert(s_sizes(count, each)[i - 1] == each);
        assert((i - 1) * each + each == i * each) by (nonlinear_arith);
    } else {
        assert(i * each == 0) by (nonlinear_arith)
            requires
                i == 0,
        ;
    }
}

/// The planned memory layout of both evaluation domains.
#[verifier::ext_equal]
pub struct LayoutV {
    pub var_pol_map: Seq<PolType>,
    pub offsets_n: Seq<usize>,
    pub offsets_2ns: Seq<usize>,
    pub total_n: usize,
    pub total_2ns: usize,
}

/// The memory-layout plan: every committed polynomial gets a base-domain
/// and an extended-domain slot, the quotient slots live on the extended
/// domain only, and each domain's offsets are the running sums of the
/// extents before them. Layouts that outgrow the machine's index range
/// are refused.
pub open spec fn s_map(
    n_cm1: usize,
    n_cm2: usize,
    n_q: usize,
    n_bits: usize,
    n_bits_ext: usize,
) -> Result<LayoutV, CompileError> {
    let deg_n = 1usize << n_bits;
    let deg_ext = 1usize << n_bits_ext;
    if n_cm1 + n_cm2 + n_q > usize::MAX {
        Err(CompileError::TooLarge)
    } else {
        let n_cm = (n_cm1 + n_cm2) as usize;
        let n_ext = (n_cm1 + n_cm2 + n_q) as usize;
        let sizes_n = s_sizes(n_cm as int, deg_n);
        let sizes_ext = s_sizes(n_ext as int, deg_ext);
        if prefix_sum(sizes_n, n_cm as int) > usize::MAX || prefix_sum(sizes_ext, n_ext as int)
            > usize::MAX {
            Err(CompileError::TooLarge)
        } else {
            Ok(
                LayoutV {
                    var_pol_map: Seq::new(
                        n_cm as nat,
                        |i: int|
                            PolType {
                                section: if i < n_cm1 {
                                    Section::Cm1N
                                } else {
                                    Section::Cm2N
                                },
                                section_pos: if i < n_cm1 {
                                    i as usize
                                } else {
                                    (i - n_cm1) as usize
                                },
                                dim: 1,
                                deg: deg_n,
                            },
                    ),
                    offsets_n: Seq::new(n_cm as nat, |i: int| prefix_sum(sizes_n, i) as usize),
                    offsets_2ns: Seq::new(
                        n_ext as nat,
                        |i: int| prefix_sum(sizes_ext, i) as usize,
                    ),
                    total_n: prefix_sum(sizes_n, n_cm as int) as usize,
                    total_2ns: prefix_sum(sizes_ext, n_ext as int) as usize,
                },
            )
        }
    }
}

/// Executable layout planning, mirroring `s_map`.
fn plan_map(n_cm1: usize, n_cm2: usize, n_q: usize, n_bits: usize, n_bits_ext: usize) -> (r:
    Result<(Vec<PolType>, Vec<usize>, Vec<usize>, usize, usize), CompileError>)
    requires
        n_bits < usize::BITS,
        n_bits_ext < usize::BITS,
        n_cm1 + n_cm2 <= usize::MAX,
    ensures
        (match r {
            Ok(p) => s_map(n_cm1, n_cm2, n_q, n_bits, n_bits_ext) is Ok && {
                let l = s_map(n_cm1, n_cm2, n_q, n_bits, n_bits_ext)->Ok_0;
                p.0@ == l.var_pol_map && p.1@ == l.offsets_n && p.2@ == l.offsets_2ns && p.3
                    == l.total_n && p.4 == l.total_2ns
            },
            Err(e) => s_map(n_cm1, n_cm2, n_q, n_bits, n_bits_ext) == Err::<
                LayoutV,
                CompileError,
            >(e),
        }),
{
    let deg_n = 1usize << n_bits;
    let deg_ext = 1usize << n_bits_ext;
    let n_cm = n_cm1 + n_cm2;
    if n_q > usize::MAX - n_cm {
        return Err(CompileError::TooLarge);
    }
    let n_ext = n_cm + n_q;
    let mut sizes_n: Vec<usize> = Vec::new();
    let mut k: usize = 0;
    while k < n_cm
        invariant
            k <= n_cm,
            sizes_n@.len() == k,
            forall|j: int| 0 <= j < k ==> sizes_n@[j] == deg_n,
        decreases n_cm - k,
    {
        sizes_n.push(deg_n);
        k += 1;
    }
    proof {
        assert(sizes_n@ =~= s_sizes(n_cm as int, deg_n));
    }
    let mut sizes_ext: Vec<usize> = Vec::new();
    let mut k2: usize = 0;
    while k2 < n_ext
        invariant
            k2 <= n_ext,
            sizes_ext@.len() == k2,
            forall|j: int| 0 <= j < k2 ==> sizes_ext@[j] == deg_ext,
        decreases n_ext - k2,
    {
        sizes_ext.push(deg_ext);
        k2 += 1;
    }
    proof {
        assert(sizes_ext@ =~= s_sizes(n_ext as int, deg_ext));
    }
    let rn = assign_offsets(&sizes_n);
    let re = assign_offsets(&sizes_ext);
    match (rn, re) {
        (Some(on), Some(oe)) => {
            let mut vpm: Vec<PolType> = Vec::new();
            let mut k3: usize = 0;
            while k3 < n_cm
                invariant
                    k3 <= n_cm,
                    n_cm == n_cm1 + n_cm2,
                    vpm@.len() == k3,
                    forall|j: int|
                        0 <= j < k3 ==> vpm@[j] == (PolType {
                            section: if j < n_cm1 {
                                Section::Cm1N
                            } else {
                                Section::Cm2N
                            },
                            section_pos: if j < n_cm1 {
                                j as usize
                            } else {
                                (j - n_cm1) as usize
                            },
                            dim: 1,
                            deg: deg_n,
                        }),
                decreases n_cm - k3,
            {
                let pt = if k3 < n_cm1 {
                    PolType { section: Section::Cm1N, section_pos: k3, dim: 1, deg: deg_n }
                } else {
                    PolType { section: Section::Cm2N, section_pos: k3 - n_cm1, dim: 1, deg: deg_n }
                };
                vpm.push(pt);
                k3 += 1;
            }
            proof {
                let l = s_map(n_cm1, n_cm2, n_q, n_bits, n_bits_ext)->Ok_0;
                assert(vpm@ =~= l.var_pol_map);
                assert(on.0@ =~= l.offsets_n);
                assert(oe.0@ =~= l.offsets_2ns);
            }
            Ok((vpm, on.0, oe.0, on.1, oe.1))
        },
        _ => Err(CompileError::TooLarge),
    }
}

/// Layout non-overlap on the base domain: two distinct polynomials get
/// disjoint offset ranges of extent `2^n_bits` each.
pub proof fn lemma_map_nonoverlap_n(
    n_cm1: usize,
    n_cm2: usize,
    n_q: usize,
    n_bits: usize,
    n_bits_ext: usize,
    i: int,
    j: int,
)
    requires
        n_bits < usize::BITS,
        s_map(n_cm1, n_cm2, n_q, n_bits, n_bits_ext) is Ok,
        0 <= i < n_cm1 + n_cm2,
        0 <= j < n_cm1 + n_cm2,
        i != j,
    ensures
        ({
            let l = s_map(n_cm1, n_cm2, n_q, n_bits, n_bits_ext)->Ok_0;
            let deg_n = 1usize << n_bits;
            l.offsets_n[i] + deg_n <= l.offsets_n[j] || l.offsets_n[j] + deg_n <= l.offsets_n[i]
        }),
{
    let deg_n = 1usize << n_bits;
    let n_cm = (n_cm1 + n_cm2) as usize;
    let sizes = s_sizes(n_cm as int, deg_n);
    crate::layout::lemma_layout_nonoverlap(sizes, i, j);
    lemma_prefix_sum_monotone(sizes, i, n_cm as int);
    lemma_prefix_sum_monotone(sizes, j, n_cm as int);
    lemma_prefix_sum_monotone(sizes, 0, i);
    lemma_prefix_sum_monotone(sizes, 0, j);
}

/// Layout non-overlap on the extended domain, quotient slots included.
pub proof fn lemma_map_nonoverlap_2ns(
    n_cm1: usize,
    n_cm2: usize,
    n_q: usize,
    n_bits: usize,
    n_bits_ext: usize,
    i: int,
    j: int,
)
    requires
        n_bits_ext < usize::BITS,
        s_map(n_cm1, n_cm2, n_q, n_bits, n_bits_ext) is Ok,
        0 <= i < n_cm1 + n_cm2 + n_q,
        0 <= j < n_cm1 + n_cm2 + n_q,
        i != j,
    ensures
        ({
            let l = s_map(n_cm1, n_cm2, n_q, n_bits, n_bits_ext)->Ok_0;
            let deg_ext = 1usize << n_bits_ext;
            l.offsets_2ns[i] + deg_ext <= l.offsets_2ns[j] || l.offsets_2ns[j] + deg_ext
                <= l.offsets_2ns[i]
        }),
{
    let deg_ext = 1usize << n_bits_ext;
    let n_ext = (n_cm1 + n_cm2 + n_q) as usize;
    let sizes = s_sizes(n_ext as int, deg_ext);
    crate::layout::lemma_layout_nonoverlap(sizes, i, j);
    lemma_prefix_sum_monotone(sizes, i, n_ext as int);
    lemma_prefix_sum_monotone(sizes, j, n_ext as int);
    lemma_prefix_sum_monotone(sizes, 0, i);
    lemma_prefix_sum_monotone(sizes, 0, j);
}

/// The sum of all per-polynomial extents equals the reported total buffer
/// size, for each domain.
pub proof fn lemma_map_totals(n_cm1: usize, n_cm2: usize, n_q: usize, n_bits: usize, n_bits_ext: usize)
    requires
        n_bits < usize::BITS,
        n_bits_ext < usize::BITS,
        s_map(n_cm1, n_cm2, n_q, n_bits, n_bits_ext) is Ok,
    ensures
        ({
            let l = s_map(n_cm1, n_cm2, n_q, n_bits, n_bits_ext)->Ok_0;
            l.total_n as int == (n_cm1 + n_cm2) * (1usize << n_bits) && l.total_2ns as int == (
            n_cm1 + n_cm2 + n_q) * (1usize << n_bits_ext)
        }),
{
    lemma_prefix_sum_const((n_cm1 + n_cm2) as int, 1usize << n_bits, (n_cm1 + n_cm2) as int);
    lemma_prefix_sum_const(
        (n_cm1 + n_cm2 + n_q) as int,
        1usize << n_bits_ext,
        (n_cm1 + n_cm2 + n_q) as int,
    );
}

/// The whole compilation, phase by phase: degree validation, the
/// public-value calculators, the lookup phase, and the memory-layout
/// plan. Any failure aborts the run; nothing partial is produced.
pub open spec fn s_new(
    pil: crate::types::PILV,
    n_bits: usize,
    n_bits_ext: usize,
    steps: Seq<crate::types::Step>,
) -> Result<(StarkInfoV, ProgramV), CompileError> {
    let stark_deg = 1usize << n_bits;
    let pil_deg = pil.references[0].pol_deg;
    if stark_deg != pil_deg {
        Err(CompileError::MustEqualDegree(stark_deg, pil_deg))
    } else if n_bits_ext != steps[0].n_bits {
        Err(CompileError::MustEqualDegree(n_bits_ext, steps[0].n_bits))
    } else if !table_wf(pil.expressions) {
        Err(CompileError::UnresolvedReference(table_first_bad(pil.expressions, 0)))
    } else {
        match s_publics(pil.publics, pil.expressions) {
            Err(e) => Err(e),
            Ok(pubsegs) => match s_step2_ids(
                pil.plookup_identities,
                s_step2_init(pil, empty_ctx()),
            ) {
                Err(e) => Err(e),
                Ok(s) => {
                    let n_cm1 = pil.n_commitments;
                    let n_cm2 = (s.n_cm - n_cm1) as usize;
                    match s_map(n_cm1, n_cm2, s.n_q as usize, n_bits, n_bits_ext) {
                        Err(e) => Err(e),
                        Ok(l) => Ok(
                            (
                                StarkInfoV {
                                    var_pol_map: l.var_pol_map,
                                    n_cm1,
                                    n_cm2,
                                    pu_ctx: s.pu,
                                    pe_ctx: Seq::empty(),
                                    ci_ctx: Seq::empty(),
                                    n_constants: pil.n_constants,
                                    n_publics: pil.publics.len() as usize,
                                    publics: pil.publics,
                                    map_offsets_n: l.offsets_n,
                                    map_offsets_2ns: l.offsets_2ns,
                                    map_total_n: l.total_n,
                                    map_total_2ns: l.total_2ns,
                                },
                                ProgramV {
                                    publics_code: pubsegs,
                                    step2prev: SegV {
                                        ops: s.st.code,
                                        tmp_used: s.st.tmp_used as usize,
                                    },
                                    step3prev: empty_seg(),
                                    step3: empty_seg(),
                                    step42ns: empty_seg(),
                                    step52ns: empty_seg(),
                                    verifier_code: empty_seg(),
                                    verifier_query_code: empty_seg(),
                                },
                            ),
                        ),
                    }
                },
            },
        }
    }
}

/// Determinism: the compiler's result is a function of the PIL program and
/// the proof parameters alone, so compiling equal inputs twice yields
/// identical metadata and programs.
pub proof fn lemma_compile_deterministic(
    p1: crate::types::PILV,
    p2: crate::types::PILV,
    b1: usize,
    b2: usize,
    e1: usize,
    e2: usize,
    s1: Seq<crate::types::Step>,
    s2: Seq<crate::types::Step>,
)
    requires
        p1 == p2,
        b1 == b2,
        e1 == e2,
        s1 == s2,
    ensures
        s_new(p1, b1, e1, s1) == s_new(p2, b2, e2, s2),
{
}

impl StarkInfo {
    /// The compiler entry point. Validates that the declared trace size
    /// matches the program's polynomial degree and that the extended
    /// domain matches the first proof step, then runs the phases in their
    /// fixed order, threading the growing counters, and finally plans the
    /// memory layout. On any error the run aborts: no metadata and no
    /// program bundle are returned.
    pub fn new(pil: &mut PIL, stark_struct: &StarkStruct) -> (r: Result<
        (StarkInfo, Program),
        CompileError,
    >)
        requires
            old(pil)@.references.len() > 0,
            stark_struct.steps@.len() > 0,
            stark_struct.n_bits < usize::BITS,
            stark_struct.n_bits_ext < usize::BITS,
            old(pil)@.n_q + 2 * old(pil)@.plookup_identities.len() <= usize::MAX,
            old(pil)@.n_commitments + 2 * old(pil)@.plookup_identities.len() <= usize::MAX,
            old(pil)@.expressions.len() + 2 * old(pil)@.plookup_identities.len() <= usize::MAX,
        ensures
            (match r {
                Ok(p) => {
                    let sr = s_new(
                        old(pil)@,
                        stark_struct.n_bits,
                        stark_struct.n_bits_ext,
                        stark_struct.steps@,
                    );
                    sr is Ok && p.0@ == sr->Ok_0.0 && p.1@ == sr->Ok_0.1
                },
                Err(e) => s_new(
                    old(pil)@,
                    stark_struct.n_bits,
                    stark_struct.n_bits_ext,
                    stark_struct.steps@,
                ) == Err::<(StarkInfoV, ProgramV), CompileError>(e),
            }),
            r is Ok ==> (1usize << stark_struct.n_bits) == old(pil)@.references[0].pol_deg
                && stark_struct.n_bits_ext == stark_struct.steps@[0].n_bits,
            (1usize << stark_struct.n_bits) != old(pil)@.references[0].pol_deg ==> r == Err::<
                (StarkInfo, Program),
                CompileError,
            >(
                CompileError::MustEqualDegree(
                    1usize << stark_struct.n_bits,
                    old(pil)@.references[0].pol_deg,
                ),
            ),
            ((1usize << stark_struct.n_bits) == old(pil)@.references[0].pol_deg
                && stark_struct.n_bits_ext != stark_struct.steps@[0].n_bits) ==> r == Err::<
                (StarkInfo, Program),
                CompileError,
            >(
                CompileError::MustEqualDegree(
                    stark_struct.n_bits_ext,
                    stark_struct.steps@[0].n_bits,
                ),
            ),
            final(pil)@.n_commitments >= old(pil)@.n_commitments,
            final(pil)@.n_q >= old(pil)@.n_q,
    {
        let pil_deg = pil.references[0].pol_deg;
        let stark_deg = 1usize << stark_struct.n_bits;
        if stark_deg != pil_deg {
            return Err(CompileError::MustEqualDegree(stark_deg, pil_deg));
        }
        if stark_struct.n_bits_ext != stark_struct.steps[0].n_bits {
            return Err(
                CompileError::MustEqualDegree(
                    stark_struct.n_bits_ext,
                    stark_struct.steps[0].n_bits,
                ),
            );
        }
        let mut info = StarkInfo {
            var_pol_map: Vec::new(),
            n_cm1: 0,
            n_cm2: 0,
            pu_ctx: Vec::new(),
            pe_ctx: Vec::new(),
            ci_ctx: Vec::new(),
            n_constants: pil.n_constants,
            n_publics: pil.publics.len(),
            publics: Vec::new(),
            map_offsets_n: Vec::new(),
            map_offsets_2ns: Vec::new(),
            map_total_n: 0,
            map_total_2ns: 0,
        };
        let mut program = Program::empty();
        match info.generate_pubulic_calculators(pil, &mut program) {
            Err(e) => {
                return Err(e);
            },
            Ok(()) => {},
        }
        proof {
            assert(program@.publics_code =~~= s_publics(pil@.publics, pil@.expressions)->Ok_0);
        }
        info.n_cm1 = pil.n_commitments;
        let mut ctx = Context::empty();
        match info.generate_step2(&mut ctx, pil, &mut program) {
            Err(e) => {
                return Err(e);
            },
            Ok(()) => {},
        }
        let ghost s = s_step2_ids(
            old(pil)@.plookup_identities,
            s_step2_init(old(pil)@, empty_ctx()),
        )->Ok_0;
        let n_q_now = pil.n_q;
        proof {
            assert(pil@.n_q as int == s.n_q);
            assert(info@.n_cm1 + info@.n_cm2 <= usize::MAX);
        }
        match plan_map(
            info.n_cm1,
            info.n_cm2,
            n_q_now,
            stark_struct.n_bits,
            stark_struct.n_bits_ext,
        ) {
            Err(e) => {
                return Err(e);
            },
            Ok((vpm, offs_n, offs_ext, total_n, total_ext)) => {
                info.var_pol_map = vpm;
                info.map_offsets_n = offs_n;
                info.map_offsets_2ns = offs_ext;
                info.map_total_n = total_n;
                info.map_total_2ns = total_ext;
            },
        }
        let mut pubs: Vec<Public> = Vec::new();
        let n_pub = pil.publics.len();
        let mut k: usize = 0;
        while k < n_pub
            invariant
                k <= n_pub,
                n_pub == pil@.publics.len(),
                pubs@ == pil@.publics.take(k as int),
            decreases n_pub - k,
        {
            pubs.push(pil.publics[k]);
            proof {
                assert(pil@.publics.take(k as int + 1) =~= pil@.publics.take(k as int).push(
                    pil@.publics[k as int],
                ));
            }
            k += 1;
        }
        proof {
            assert(pil@.publics.take(n_pub as int) =~= pil@.publics);
        }
        info.publics = pubs;
        proof {
            let sr = s_new(
                old(pil)@,
                stark_struct.n_bits,
                stark_struct.n_bits_ext,
                stark_struct.steps@,
            );
            assert(sr is Ok);
            assert(info@ =~~= sr->Ok_0.0);
            assert(program@ =~~= sr->Ok_0.1);
        }
        Ok((info, program))
    }
}

} // verus!
