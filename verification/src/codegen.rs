//! The memoizing code generator and the segment builder.
//!
//! Lowering turns one expression-table entry, for one row-shift flag, into
//! an ordered list of elementary operations appended to a compilation
//! context. Operands are lowered before their consumers (post-order), every
//! operator result goes to a fresh temporary, and every table entry is
//! materialized once under an expression-reference destination; later uses
//! of the same (entry, row-shift) key reuse that destination instead of
//! re-emitting its operations.

use crate::expression::{expr_height, expr_wf, table_wf, ChallengeTag, Expr, Expression};
use vstd::prelude::*;

verus! {

broadcast use vstd::std_specs::vec::axiom_spec_len;

/// A typed operand or destination reference inside a compiled operation.
/// Ids are meaningful only within their kind's namespace.
#[derive(Clone, Copy, Debug, PartialEq, Eq)]
pub enum NodeRef {
    /// A constant-column value.
    Const { id: usize, prime: bool },
    /// A committed-column value.
    Cm { id: usize, prime: bool },
    /// A temporary allocated by the generator.
    Tmp { id: usize },
    /// The materialized value of an expression-table entry.
    Exp { id: usize, prime: bool },
    /// A public value.
    Public { id: usize },
    /// A protocol challenge.
    Challenge { tag: ChallengeTag },
    /// A numeric literal.
    Number { value: u64 },
    /// A quotient-polynomial slot.
    Q { id: usize, prime: bool },
}

/// The elementary operation kinds a segment may hold.
#[derive(Clone, Copy, Debug, PartialEq, Eq)]
pub enum OpKind {
    Add,
    Sub,
    Mul,
    Neg,
    /// Plain materialization of an already-computed value.
    Assign,
}

/// One elementary operation: a destination, a first operand, and a second
/// operand for the binary kinds.
#[derive(Clone, Copy, Debug, PartialEq, Eq)]
pub struct Operation {
    pub op: OpKind,
    pub dest: NodeRef,
    pub a: NodeRef,
    pub b: Option<NodeRef>,
}

/// An immutable compiled program fragment: the ordered operation list and
/// the number of temporaries it needs.
#[derive(Debug, PartialEq, Eq)]
pub struct Segment {
    pub ops: Vec<Operation>,
    pub tmp_used: usize,
}

/// Mathematical view of a segment.
#[verifier::ext_equal]
pub struct SegV {
    pub ops: Seq<Operation>,
    pub tmp_used: usize,
}

impl View for Segment {
    type V = SegV;

    open spec fn view(&self) -> SegV {
        SegV { ops: self.ops@, tmp_used: self.tmp_used }
    }
}

/// A compilation context: the memo table of already-lowered
/// (entry, row-shift) keys, the operations accumulated so far, and the
/// count of temporaries allocated so far.
pub struct Context {
    pub calculated: Vec<(usize, bool)>,
    pub code: Vec<Operation>,
    pub tmp_used: usize,
}

/// Mathematical view of a compilation context.
#[verifier::ext_equal]
pub struct ContextV {
    pub calculated: Seq<(usize, bool)>,
    pub code: Seq<Operation>,
    pub tmp_used: int,
}

impl View for Context {
    type V = ContextV;

    open spec fn view(&self) -> ContextV {
        ContextV {
            calculated: self.calculated@,
            code: self.code@,
            tmp_used: self.tmp_used as int,
        }
    }
}

impl Context {
    /// A fresh context: nothing memoized, no code, no temporaries.
    pub fn empty() -> (r: Context)
        ensures
            r@ == empty_ctx(),
    {
        let r = Context { calculated: Vec::new(), code: Vec::new(), tmp_used: 0 };
        proof {
            assert(r@ =~= empty_ctx());
        }
        r
    }
}

/// The view of a fresh context.
pub open spec fn empty_ctx() -> ContextV {
    ContextV { calculated: Seq::empty(), code: Seq::empty(), tmp_used: 0 }
}

/// The memo table holds a key.
pub open spec fn calc_has(c: Seq<(usize, bool)>, id: usize, prime: bool) -> bool {
    exists|i: int| 0 <= i < c.len() && c[i] == (id, prime)
}

/// Every temporary was allocated beside an emitted operation, so the
/// temporary counter never outruns the code length. This is what keeps the
/// counter within the machine's index range.
pub open spec fn ctx_inv(st: ContextV) -> bool {
    st.tmp_used <= st.code.len()
}

/// The table entry lowered by key `id`, or the seed when out of range.
pub open spec fn s_entry(exprs: Seq<Expression>, id: usize) -> Expr {
    if id < exprs.len() {
        exprs[id as int].expr
    } else {
        Expr::Nop
    }
}

/// Lowering one expression tree: the context after, and the operand node
/// the consumer reads the result from. Leaves resolve directly (the
/// row-shift flag carries onto every shiftable reference), operators lower
/// their operands first and write to a fresh temporary, and table
/// references are lowered through the memoized `s_code_gen`.
pub open spec fn s_eval(
    exprs: Seq<Expression>,
    e: Expr,
    prime: bool,
    bound: int,
    st: ContextV,
) -> (ContextV, NodeRef)
    decreases bound, expr_height(e),
{
    match e {
        Expr::Nop => (st, NodeRef::Number { value: 0 }),
        Expr::ConstRef { id, prime: p } => (st, NodeRef::Const { id, prime: p || prime }),
        Expr::CmRef { id, prime: p } => (st, NodeRef::Cm { id, prime: p || prime }),
        Expr::QRef { id, prime: p } => (st, NodeRef::Q { id, prime: p || prime }),
        Expr::PublicRef { id } => (st, NodeRef::Public { id }),
        Expr::Challenge { tag } => (st, NodeRef::Challenge { tag }),
        Expr::Number { value } => (st, NodeRef::Number { value }),
        Expr::ExpRef { id, prime: p } => {
            let q = p || prime;
            if 0 <= (id as int) < bound {
                (s_code_gen(exprs, id, q, st), NodeRef::Exp { id, prime: q })
            } else {
                (st, NodeRef::Exp { id, prime: q })
            }
        },
        Expr::Add(x, y) => {
            let r1 = s_eval(exprs, *x, prime, bound, st);
            let r2 = s_eval(exprs, *y, prime, bound, r1.0);
            let dest = NodeRef::Tmp { id: r2.0.tmp_used as usize };
            (
                ContextV {
                    calculated: r2.0.calculated,
                    code: r2.0.code.push(
                        Operation { op: OpKind::Add, dest, a: r1.1, b: Some(r2.1) },
                    ),
                    tmp_used: r2.0.tmp_used + 1,
                },
                dest,
            )
        },
        Expr::Sub(x, y) => {
            let r1 = s_eval(exprs, *x, prime, bound, st);
            let r2 = s_eval(exprs, *y, prime, bound, r1.0);
            let dest = NodeRef::Tmp { id: r2.0.tmp_used as usize };
            (
                ContextV {
                    calculated: r2.0.calculated,
                    code: r2.0.code.push(
                        Operation { op: OpKind::Sub, dest, a: r1.1, b: Some(r2.1) },
                    ),
                    tmp_used: r2.0.tmp_used + 1,
                },
                dest,
            )
        },
        Expr::Mul(x, y) => {
            let r1 = s_eval(exprs, *x, prime, bound, st);
            let r2 = s_eval(exprs, *y, prime, bound, r1.0);
            let dest = NodeRef::Tmp { id: r2.0.tmp_used as usize };
            (
                ContextV {
                    calculated: r2.0.calculated,
                    code: r2.0.code.push(
                        Operation { op: OpKind::Mul, dest, a: r1.1, b: Some(r2.1) },
                    ),
                    tmp_used: r2.0.tmp_used + 1,
                },
                dest,
            )
        },
        Expr::Neg(x) => {
            let r1 = s_eval(exprs, *x, prime, bound, st);
            let dest = NodeRef::Tmp { id: r1.0.tmp_used as usize };
            (
                ContextV {
                    calculated: r1.0.calculated,
                    code: r1.0.code.push(
                        Operation { op: OpKind::Neg, dest, a: r1.1, b: None },
                    ),
                    tmp_used: r1.0.tmp_used + 1,
                },
                dest,
            )
        },
    }
}

/// Lowering one table entry by key: a memo hit changes nothing; otherwise
/// the entry's tree is lowered and its value materialized once under the
/// key's expression-reference destination, and the key is recorded.
pub open spec fn s_code_gen(exprs: Seq<Expression>, id: usize, prime: bool, st: ContextV) -> ContextV
    decreases id, expr_height(s_entry(exprs, id)) + 1,
{
    if calc_has(st.calculated, id, prime) {
        st
    } else if (id as int) < exprs.len() {
        let r = s_eval(exprs, exprs[id as int].expr, prime, id as int, st);
        ContextV {
            calculated: r.0.calculated.push((id, prime)),
            code: r.0.code.push(
                Operation {
                    op: OpKind::Assign,
                    dest: NodeRef::Exp { id, prime },
                    a: r.1,
                    b: None,
                },
            ),
            tmp_used: r.0.tmp_used,
        }
    } else {
        st
    }
}

/// Executable memo lookup.
fn calc_lookup(c: &Vec<(usize, bool)>, id: usize, prime: bool) -> (r: bool)
    ensures
        r == calc_has(c@, id, prime),
{
    let mut i: usize = 0;
    while i < c.len()
        invariant
            i <= c@.len(),
            forall|j: int| 0 <= j < i ==> c@[j] != (id, prime),
        decreases c@.len() - i,
    {
        let e = c[i];
        if e.0 == id && e.1 == prime {
            proof {
                assert(c@[i as int] == (id, prime));
            }
            return true;
        }
        i += 1;
    }
    false
}

/// Lowers one expression tree into the context, returning the node the
/// result is read from. Mirrors `s_eval` exactly.
pub(crate) fn eval_exp(
    ctx: &mut Context,
    exprs: &Vec<Expression>,
    e: &Expr,
    prime: bool,
    bound: usize,
) -> (r: NodeRef)
    requires
        table_wf(exprs@),
        expr_wf(*e, bound as int),
        bound <= exprs@.len(),
        ctx_inv(old(ctx)@),
    ensures
        ctx_inv(final(ctx)@),
        (final(ctx)@, r) == s_eval(exprs@, *e, prime, bound as int, old(ctx)@),
    decreases bound, expr_height(*e),
{
    match e {
        Expr::Nop => NodeRef::Number { value: 0 },
        Expr::ConstRef { id, prime: p } => NodeRef::Const { id: *id, prime: *p || prime },
        Expr::CmRef { id, prime: p } => NodeRef::Cm { id: *id, prime: *p || prime },
        Expr::QRef { id, prime: p } => NodeRef::Q { id: *id, prime: *p || prime },
        Expr::PublicRef { id } => NodeRef::Public { id: *id },
        Expr::Challenge { tag } => NodeRef::Challenge { tag: *tag },
        Expr::Number { value } => NodeRef::Number { value: *value },
        Expr::ExpRef { id, prime: p } => {
            let q = *p || prime;
            pil_code_gen(ctx, exprs, *id, q);
            NodeRef::Exp { id: *id, prime: q }
        },
        Expr::Add(x, y) => {
            let na = eval_exp(ctx, exprs, &**x, prime, bound);
            let nb = eval_exp(ctx, exprs, &**y, prime, bound);
            let t = ctx.tmp_used;
            let dest = NodeRef::Tmp { id: t };
            ctx.code.push(Operation { op: OpKind::Add, dest, a: na, b: Some(nb) });
            let n_ops: usize = ctx.code.len();
            proof {
                assert(t < n_ops);
            }
            ctx.tmp_used = t + 1;
            dest
        },
        Expr::Sub(x, y) => {
            let na = eval_exp(ctx, exprs, &**x, prime, bound);
            let nb = eval_exp(ctx, exprs, &**y, prime, bound);
            let t = ctx.tmp_used;
            let dest = NodeRef::Tmp { id: t };
            ctx.code.push(Operation { op: OpKind::Sub, dest, a: na, b: Some(nb) });
            let n_ops: usize = ctx.code.len();
            proof {
                assert(t < n_ops);
            }
            ctx.tmp_used = t + 1;
            dest
        },
        Expr::Mul(x, y) => {
            let na = eval_exp(ctx, exprs, &**x, prime, bound);
            let nb = eval_exp(ctx, exprs, &**y, prime, bound);
            let t = ctx.tmp_used;
            let dest = NodeRef::Tmp { id: t };
            ctx.code.push(Operation { op: OpKind::Mul, dest, a: na, b: Some(nb) });
            let n_ops: usize = ctx.code.len();
            proof {
                assert(t < n_ops);
            }
            ctx.tmp_used = t + 1;
            dest
        },
        Expr::Neg(x) => {
            let na = eval_exp(ctx, exprs, &**x, prime, bound);
            let t = ctx.tmp_used;
            let dest = NodeRef::Tmp { id: t };
            ctx.code.push(Operation { op: OpKind::Neg, dest, a: na, b: None });
            let n_ops: usize = ctx.code.len();
            proof {
                assert(t < n_ops);
            }
            ctx.tmp_used = t + 1;
            dest
        },
    }
}

/// Lowers one table entry by (id, row-shift) key, memoized. Mirrors
/// `s_code_gen` exactly: a key already lowered leaves the context unchanged.
pub fn pil_code_gen(ctx: &mut Context, exprs: &Vec<Expression>, exp_id: usize, prime: bool)
    requires
        table_wf(exprs@),
        exp_id < exprs@.len(),
        ctx_inv(old(ctx)@),
    ensures
        ctx_inv(final(ctx)@),
        final(ctx)@ == s_code_gen(exprs@, exp_id, prime, old(ctx)@),
    decreases exp_id, expr_height(s_entry(exprs@, exp_id)) + 1,
{
    if calc_lookup(&ctx.calculated, exp_id, prime) {
        return ;
    }
    proof {
        assert(expr_wf(exprs@[exp_id as int].expr, exp_id as int));
    }
    let node = eval_exp(ctx, exprs, &exprs[exp_id].expr, prime, exp_id);
    ctx.code.push(
        Operation {
            op: OpKind::Assign,
            dest: NodeRef::Exp { id: exp_id, prime },
            a: node,
            b: None,
        },
    );
    ctx.calculated.push((exp_id, prime));
}

/// Packages the context's accumulated operations and temporary count into
/// an immutable segment. Purely a packaging step: the operation list moves
/// out of the context, the memo table and the temporary counter stay.
pub fn build_code(ctx: &mut Context) -> (seg: Segment)
    ensures
        seg@.ops == old(ctx)@.code,
        seg@.tmp_used == old(ctx)@.tmp_used,
        final(ctx)@.code == Seq::<Operation>::empty(),
        final(ctx)@.calculated == old(ctx)@.calculated,
        final(ctx)@.tmp_used == old(ctx)@.tmp_used,
{
    let mut ops: Vec<Operation> = Vec::new();
    core::mem::swap(&mut ops, &mut ctx.code);
    Segment { ops, tmp_used: ctx.tmp_used }
}

/// One context grew out of another: code and memo entries were only
/// appended, and the temporary counter never went down.
pub open spec fn ctx_extends(st1: ContextV, st0: ContextV) -> bool {
    &&& st0.tmp_used <= st1.tmp_used
    &&& st0.code.len() <= st1.code.len()
    &&& forall|i: int| 0 <= i < st0.code.len() ==> st1.code[i] == st0.code[i]
    &&& st0.calculated.len() <= st1.calculated.len()
    &&& forall|i: int| 0 <= i < st0.calculated.len() ==> st1.calculated[i] == st0.calculated[i]
}

/// Growth composes.
pub proof fn lemma_extends_trans(a: ContextV, b: ContextV, c: ContextV)
    requires
        ctx_extends(b, a),
        ctx_extends(c, b),
    ensures
        ctx_extends(c, a),
{
}

/// A memoized key stays memoized as the context grows.
pub proof fn lemma_calc_monotone(st1: ContextV, st0: ContextV, id: usize, prime: bool)
    requires
        ctx_extends(st1, st0),
        calc_has(st0.calculated, id, prime),
    ensures
        calc_has(st1.calculated, id, prime),
{
    let i = choose|i: int| 0 <= i < st0.calculated.len() && st0.calculated[i] == (id, prime);
    assert(st1.calculated[i] == (id, prime));
}

/// Lowering a tree only grows the context.
pub proof fn lemma_eval_extends(exprs: Seq<Expression>, e: Expr, prime: bool, bound: int, st: ContextV)
    ensures
        ctx_extends(s_eval(exprs, e, prime, bound, st).0, st),
    decreases bound, expr_height(e),
{
    match e {
        Expr::ExpRef { id, prime: p } => {
            let q = p || prime;
            if 0 <= (id as int) < bound {
                lemma_gen_extends(exprs, id, q, st);
            }
        },
        Expr::Add(x, y) => {
            let r1 = s_eval(exprs, *x, prime, bound, st);
            lemma_eval_extends(exprs, *x, prime, bound, st);
            let r2 = s_eval(exprs, *y, prime, bound, r1.0);
            lemma_eval_extends(exprs, *y, prime, bound, r1.0);
            lemma_extends_trans(st, r1.0, r2.0);
            let stf = s_eval(exprs, e, prime, bound, st).0;
            assert(ctx_extends(stf, r2.0));
            lemma_extends_trans(st, r2.0, stf);
        },
        Expr::Sub(x, y) => {
            let r1 = s_eval(exprs, *x, prime, bound, st);
            lemma_eval_extends(exprs, *x, prime, bound, st);
            let r2 = s_eval(exprs, *y, prime, bound, r1.0);
            lemma_eval_extends(exprs, *y, prime, bound, r1.0);
            lemma_extends_trans(st, r1.0, r2.0);
            let stf = s_eval(exprs, e, prime, bound, st).0;
            assert(ctx_extends(stf, r2.0));
            lemma_extends_trans(st, r2.0, stf);
        },
        Expr::Mul(x, y) => {
            let r1 = s_eval(exprs, *x, prime, bound, st);
            lemma_eval_extends(exprs, *x, prime, bound, st);
            let r2 = s_eval(exprs, *y, prime, bound, r1.0);
            lemma_eval_extends(exprs, *y, prime, bound, r1.0);
            lemma_extends_trans(st, r1.0, r2.0);
            let stf = s_eval(exprs, e, prime, bound, st).0;
            assert(ctx_extends(stf, r2.0));
            lemma_extends_trans(st, r2.0, stf);
        },
        Expr::Neg(x) => {
            let r1 = s_eval(exprs, *x, prime, bound, st);
            lemma_eval_extends(exprs, *x, prime, bound, st);
            let stf = s_eval(exprs, e, prime, bound, st).0;
            assert(ctx_extends(stf, r1.0));
            lemma_extends_trans(st, r1.0, stf);
        },
        _ => {},
    }
}

/// Lowering a table entry only grows the context.
pub proof fn lemma_gen_extends(exprs: Seq<Expression>, id: usize, prime: bool, st: ContextV)
    ensures
        ctx_extends(s_code_gen(exprs, id, prime, st), st),
    decreases id, expr_height(s_entry(exprs, id)) + 1,
{
    if !calc_has(st.calculated, id, prime) && (id as int) < exprs.len() {
        lemma_eval_extends(exprs, exprs[id as int].expr, prime, id as int, st);
    }
}

/// How many operations in `code` materialize the key `(id, prime)`.
pub open spec fn dest_count(code: Seq<Operation>, id: usize, prime: bool) -> int
    decreases code.len(),
{
    if code.len() == 0 {
        0
    } else {
        dest_count(code.drop_last(), id, prime) + if code.last().dest == (NodeRef::Exp {
            id,
            prime,
        }) {
            1int
        } else {
            0int
        }
    }
}

/// Appending one operation changes one key's count by at most one.
pub proof fn lemma_dest_count_push(code: Seq<Operation>, op: Operation, id: usize, prime: bool)
    ensures
        dest_count(code.push(op), id, prime) == dest_count(code, id, prime) + if op.dest
            == (NodeRef::Exp { id, prime }) {
            1int
        } else {
            0int
        },
{
    assert(code.push(op).drop_last() =~= code);
    assert(code.push(op).last() == op);
}

/// The generator's memoization invariant: every key is materialized at most
/// once, and only keys recorded in the memo table are materialized at all.
pub open spec fn gen_inv(st: ContextV) -> bool {
    forall|id: usize, prime: bool|
        #![trigger dest_count(st.code, id, prime)]
        dest_count(st.code, id, prime) <= 1 && (dest_count(st.code, id, prime) == 1 ==> calc_has(
            st.calculated,
            id,
            prime,
        )) && dest_count(st.code, id, prime) >= 0
}

/// Lowering a tree below `bound` leaves the count of every key at or above
/// `bound` untouched, and preserves the memoization invariant.
pub proof fn lemma_eval_inv(exprs: Seq<Expression>, e: Expr, prime: bool, bound: int, st: ContextV)
    requires
        gen_inv(st),
    ensures
        gen_inv(s_eval(exprs, e, prime, bound, st).0),
        forall|kid: usize, kp: bool|
            #![trigger dest_count(s_eval(exprs, e, prime, bound, st).0.code, kid, kp)]
            kid as int >= bound ==> dest_count(s_eval(exprs, e, prime, bound, st).0.code, kid, kp)
                == dest_count(st.code, kid, kp),
    decreases bound, expr_height(e),
{
    match e {
        Expr::ExpRef { id, prime: p } => {
            let q = p || prime;
            if 0 <= (id as int) < bound {
                lemma_gen_inv(exprs, id, q, st);
            }
        },
        Expr::Add(x, y) => {
            let r1 = s_eval(exprs, *x, prime, bound, st);
            lemma_eval_inv(exprs, *x, prime, bound, st);
            let r2 = s_eval(exprs, *y, prime, bound, r1.0);
            lemma_eval_inv(exprs, *y, prime, bound, r1.0);
            let op = Operation {
                op: OpKind::Add,
                dest: NodeRef::Tmp { id: r2.0.tmp_used as usize },
                a: r1.1,
                b: Some(r2.1),
            };
            assert forall|kid: usize, kp: bool| true implies #[trigger] dest_count(
                r2.0.code.push(op),
                kid,
                kp,
            ) == dest_count(r2.0.code, kid, kp) by {
                lemma_dest_count_push(r2.0.code, op, kid, kp);
            }
        },
        Expr::Sub(x, y) => {
            let r1 = s_eval(exprs, *x, prime, bound, st);
            lemma_eval_inv(exprs, *x, prime, bound, st);
            let r2 = s_eval(exprs, *y, prime, bound, r1.0);
            lemma_eval_inv(exprs, *y, prime, bound, r1.0);
            let op = Operation {
                op: OpKind::Sub,
                dest: NodeRef::Tmp { id: r2.0.tmp_used as usize },
                a: r1.1,
                b: Some(r2.1),
            };
            assert forall|kid: usize, kp: bool| true implies #[trigger] dest_count(
                r2.0.code.push(op),
                kid,
                kp,
            ) == dest_count(r2.0.code, kid, kp) by {
                lemma_dest_count_push(r2.0.code, op, kid, kp);
            }
        },
        Expr::Mul(x, y) => {
            let r1 = s_eval(exprs, *x, prime, bound, st);
            lemma_eval_inv(exprs, *x, prime, bound, st);
            let r2 = s_eval(exprs, *y, prime, bound, r1.0);
            lemma_eval_inv(exprs, *y, prime, bound, r1.0);
            let op = Operation {
                op: OpKind::Mul,
                dest: NodeRef::Tmp { id: r2.0.tmp_used as usize },
                a: r1.1,
                b: Some(r2.1),
            };
            assert forall|kid: usize, kp: bool| true implies #[trigger] dest_count(
                r2.0.code.push(op),
                kid,
                kp,
            ) == dest_count(r2.0.code, kid, kp) by {
                lemma_dest_count_push(r2.0.code, op, kid, kp);
            }
        },
        Expr::Neg(x) => {
            let r1 = s_eval(exprs, *x, prime, bound, st);
            lemma_eval_inv(exprs, *x, prime, bound, st);
            let op = Operation {
                op: OpKind::Neg,
                dest: NodeRef::Tmp { id: r1.0.tmp_used as usize },
                a: r1.1,
                b: None,
            };
            assert forall|kid: usize, kp: bool| true implies #[trigger] dest_count(
                r1.0.code.push(op),
                kid,
                kp,
            ) == dest_count(r1.0.code, kid, kp) by {
                lemma_dest_count_push(r1.0.code, op, kid, kp);
            }
        },
        _ => {},
    }
}

/// Memoization correctness for one key: lowering preserves the invariant,
/// touches no key above its own, and a memo hit changes nothing at all.
pub proof fn lemma_gen_inv(exprs: Seq<Expression>, id: usize, prime: bool, st: ContextV)
    requires
        gen_inv(st),
    ensures
        gen_inv(s_code_gen(exprs, id, prime, st)),
        forall|kid: usize, kp: bool|
            #![trigger dest_count(s_code_gen(exprs, id, prime, st).code, kid, kp)]
            kid > id ==> dest_count(s_code_gen(exprs, id, prime, st).code, kid, kp) == dest_count(
                st.code,
                kid,
                kp,
            ),
        calc_has(st.calculated, id, prime) ==> s_code_gen(exprs, id, prime, st) == st,
    decreases id, expr_height(s_entry(exprs, id)) + 1,
{
    if !calc_has(st.calculated, id, prime) && (id as int) < exprs.len() {
        let r = s_eval(exprs, exprs[id as int].expr, prime, id as int, st);
        lemma_eval_inv(exprs, exprs[id as int].expr, prime, id as int, st);
        lemma_eval_extends(exprs, exprs[id as int].expr, prime, id as int, st);
        let op = Operation {
            op: OpKind::Assign,
            dest: NodeRef::Exp { id, prime },
            a: r.1,
            b: None,
        };
        let stf = s_code_gen(exprs, id, prime, st);
        assert forall|kid: usize, kp: bool| true implies #[trigger] dest_count(stf.code, kid, kp)
            <= 1 && (dest_count(stf.code, kid, kp) == 1 ==> calc_has(stf.calculated, kid, kp))
            && dest_count(stf.code, kid, kp) >= 0 && (kid > id ==> dest_count(stf.code, kid, kp)
            == dest_count(st.code, kid, kp)) by {
            lemma_dest_count_push(r.0.code, op, kid, kp);
            assert(dest_count(r.0.code, kid, kp) <= 1);
            if kid == id && kp == prime {
                assert(dest_count(st.code, id, prime) == 0);
                assert(dest_count(r.0.code, id, prime) == 0);
                assert(stf.calculated.last() == (id, prime));
                assert(calc_has(stf.calculated, kid, kp));
            } else {
                if dest_count(stf.code, kid, kp) == 1 {
                    assert(dest_count(r.0.code, kid, kp) == 1);
                    assert(calc_has(r.0.calculated, kid, kp));
                    let i = choose|i: int|
                        0 <= i < r.0.calculated.len() && r.0.calculated[i] == (kid, kp);
                    assert(stf.calculated[i] == (kid, kp));
                }
            }
        }
    }
}


/// A fresh context satisfies the memoization invariant: nothing has been
/// materialized and nothing is memoized.
pub proof fn lemma_gen_inv_init()
    ensures
        gen_inv(empty_ctx()),
{
    assert forall|id: usize, prime: bool| true implies #[trigger] dest_count(
        empty_ctx().code,
        id,
        prime,
    ) == 0 by {
        assert(empty_ctx().code.len() == 0);
    }
}

} // verus!
