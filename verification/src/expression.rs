//! Expression intermediate representation and its builders.
//!
//! Expressions are symbolic trees over column references, challenges and
//! numeric literals. Builders only allocate: nothing is evaluated. The
//! designated no-op value serves the protocol phases as a fold seed: the
//! random-linear-combination folds below start from it and replace it with
//! the first real term.

use vstd::prelude::*;

verus! {

/// Symbolic challenge values drawn by the proving protocol. Their numeric
/// binding happens outside this compiler; here they are only names.
#[derive(Clone, Copy, PartialEq, Eq, Debug)]
pub enum ChallengeTag {
    /// The random-linear-combination challenge.
    U,
    /// The default blend value for identities with a selector.
    DefVal,
}

/// One node of a field-valued expression tree.
///
/// Every reference carries an id that is meaningful only within its own
/// kind's namespace, and reference kinds that can be shifted carry a `prime`
/// flag asking for the value at the next row of the trace.
#[derive(Debug, PartialEq, Eq)]
pub enum Expr {
    /// The designated empty element used as a fold seed.
    Nop,
    /// A constant (preprocessed) polynomial reference.
    ConstRef { id: usize, prime: bool },
    /// A committed polynomial reference.
    CmRef { id: usize, prime: bool },
    /// A reference to another entry of the expression table.
    ExpRef { id: usize, prime: bool },
    /// A public value reference.
    PublicRef { id: usize },
    /// A protocol challenge.
    Challenge { tag: ChallengeTag },
    /// A numeric literal.
    Number { value: u64 },
    /// A quotient-polynomial slot reference.
    QRef { id: usize, prime: bool },
    Add(Box<Expr>, Box<Expr>),
    Sub(Box<Expr>, Box<Expr>),
    Mul(Box<Expr>, Box<Expr>),
    Neg(Box<Expr>),
}

/// An entry of the PIL expression table: a tree plus its table-level marks.
#[derive(Debug, PartialEq, Eq)]
pub struct Expression {
    pub expr: Expr,
    /// The quotient slot assigned to this expression, if any.
    pub id_q: Option<usize>,
    /// Forces materialization as a standalone value instead of re-inlining.
    pub keep: bool,
}

/// An expression tree wrapped as a plain table entry: no quotient slot, no
/// materialization mark.
pub open spec fn s_wrap(e: Expr) -> Expression {
    Expression { expr: e, id_q: None, keep: false }
}

pub open spec fn s_add(a: Expr, b: Expr) -> Expr {
    Expr::Add(Box::new(a), Box::new(b))
}

pub open spec fn s_sub(a: Expr, b: Expr) -> Expr {
    Expr::Sub(Box::new(a), Box::new(b))
}

pub open spec fn s_mul(a: Expr, b: Expr) -> Expr {
    Expr::Mul(Box::new(a), Box::new(b))
}

impl Expression {
    /// The no-op sentinel.
    pub fn nop() -> (r: Expression)
        ensures
            r == s_wrap(Expr::Nop),
    {
        Expression { expr: Expr::Nop, id_q: None, keep: false }
    }

    /// A symbolic challenge reference.
    pub fn challenge(tag: ChallengeTag) -> (r: Expression)
        ensures
            r == s_wrap(Expr::Challenge { tag }),
    {
        Expression { expr: Expr::Challenge { tag }, id_q: None, keep: false }
    }

    /// A reference to entry `id` of the expression table, evaluated at the
    /// next row when `prime` is set.
    pub fn exp(id: usize, prime: bool) -> (r: Expression)
        ensures
            r == s_wrap(Expr::ExpRef { id, prime }),
    {
        Expression { expr: Expr::ExpRef { id, prime }, id_q: None, keep: false }
    }

    /// Symbolic sum: builds the operator node, evaluates nothing.
    pub fn add(a: Expression, b: Expression) -> (r: Expression)
        ensures
            r == s_wrap(s_add(a.expr, b.expr)),
    {
        Expression { expr: Expr::Add(Box::new(a.expr), Box::new(b.expr)), id_q: None, keep: false }
    }

    /// Symbolic difference.
    pub fn sub(a: Expression, b: Expression) -> (r: Expression)
        ensures
            r == s_wrap(s_sub(a.expr, b.expr)),
    {
        Expression { expr: Expr::Sub(Box::new(a.expr), Box::new(b.expr)), id_q: None, keep: false }
    }

    /// Symbolic product.
    pub fn mul(a: Expression, b: Expression) -> (r: Expression)
        ensures
            r == s_wrap(s_mul(a.expr, b.expr)),
    {
        Expression { expr: Expr::Mul(Box::new(a.expr), Box::new(b.expr)), id_q: None, keep: false }
    }

    /// The fold-seed test: has the running accumulator received a term yet?
    pub fn is_nop(&self) -> (r: bool)
        ensures
            r == (self.expr is Nop),
    {
        matches!(self.expr, Expr::Nop)
    }
}

/// Height of an expression tree; the recursion measure for the generator.
pub open spec fn expr_height(e: Expr) -> nat
    decreases e,
{
    match e {
        Expr::Add(a, b) => 1 + if expr_height(*a) >= expr_height(*b) {
            expr_height(*a)
        } else {
            expr_height(*b)
        },
        Expr::Sub(a, b) => 1 + if expr_height(*a) >= expr_height(*b) {
            expr_height(*a)
        } else {
            expr_height(*b)
        },
        Expr::Mul(a, b) => 1 + if expr_height(*a) >= expr_height(*b) {
            expr_height(*a)
        } else {
            expr_height(*b)
        },
        Expr::Neg(a) => 1 + expr_height(*a),
        _ => 0,
    }
}

/// A tree is lowerable below `bound`: it holds no fold seed, and every
/// expression-table reference in it points strictly below `bound`.
///
/// Table references must decrease because the table is an append-only arena:
/// an entry may reference only entries that already existed when it was
/// added. This is what makes lowering terminate.
pub open spec fn expr_wf(e: Expr, bound: int) -> bool
    decreases e,
{
    match e {
        Expr::Nop => false,
        Expr::ExpRef { id, prime } => (id as int) < bound,
        Expr::Add(a, b) => expr_wf(*a, bound) && expr_wf(*b, bound),
        Expr::Sub(a, b) => expr_wf(*a, bound) && expr_wf(*b, bound),
        Expr::Mul(a, b) => expr_wf(*a, bound) && expr_wf(*b, bound),
        Expr::Neg(a) => expr_wf(*a, bound),
        _ => true,
    }
}

/// Well-formedness of a whole expression table: every entry references only
/// earlier entries.
pub open spec fn table_wf(exprs: Seq<Expression>) -> bool {
    forall|i: int| 0 <= i < exprs.len() ==> expr_wf(#[trigger] exprs[i].expr, i)
}

/// Checks `expr_wf` executably.
pub fn expr_wf_check(e: &Expr, bound: usize) -> (r: bool)
    ensures
        r == expr_wf(*e, bound as int),
    decreases *e,
{
    match e {
        Expr::Nop => false,
        Expr::ExpRef { id, prime: _ } => *id < bound,
        Expr::Add(a, b) => expr_wf_check(&**a, bound) && expr_wf_check(&**b, bound),
        Expr::Sub(a, b) => expr_wf_check(&**a, bound) && expr_wf_check(&**b, bound),
        Expr::Mul(a, b) => expr_wf_check(&**a, bound) && expr_wf_check(&**b, bound),
        Expr::Neg(a) => expr_wf_check(&**a, bound),
        _ => true,
    }
}

/// The first entry at or after `i` that is not well formed at its own
/// index; meaningful only when such an entry exists.
pub open spec fn table_first_bad(exprs: Seq<Expression>, i: int) -> usize
    decreases exprs.len() - i,
{
    if i < 0 || i >= exprs.len() {
        0
    } else if !expr_wf(exprs[i].expr, i) {
        i as usize
    } else {
        table_first_bad(exprs, i + 1)
    }
}

/// Checks a whole table, reporting the first entry that is not well formed.
pub fn table_wf_check(exprs: &Vec<Expression>) -> (r: Option<usize>)
    ensures
        r is None <==> table_wf(exprs@),
        (match r {
            Some(i) => i == table_first_bad(exprs@, 0) && i < exprs@.len() && !expr_wf(
                exprs@[i as int].expr,
                i as int,
            ),
            None => true,
        }),
{
    let mut i: usize = 0;
    while i < exprs.len()
        invariant
            i <= exprs@.len(),
            forall|j: int| 0 <= j < i ==> expr_wf(#[trigger] exprs@[j].expr, j),
            table_first_bad(exprs@, 0) == table_first_bad(exprs@, i as int),
        decreases exprs@.len() - i,
    {
        if !expr_wf_check(&exprs[i].expr, i) {
            return Some(i);
        }
        i += 1;
    }
    None
}

/// Appending an entry that is well formed at the table's current length
/// keeps the table well formed.
pub proof fn lemma_table_wf_push(exprs: Seq<Expression>, e: Expression)
    requires
        table_wf(exprs),
        expr_wf(e.expr, exprs.len() as int),
    ensures
        table_wf(exprs.push(e)),
{
    assert forall|i: int| 0 <= i < exprs.push(e).len() implies expr_wf(
        #[trigger] exprs.push(e)[i].expr,
        i,
    ) by {
        if i < exprs.len() {
            assert(exprs.push(e)[i] == exprs[i]);
        } else {
            assert(exprs.push(e)[i] == e);
        }
    }
}

/// The table-side random linear combination: folded left to right with the
/// seed replaced by the first term, then `challenge * acc + term`.
pub open spec fn s_fold_table(cols: Seq<usize>) -> Expr
    decreases cols.len(),
{
    if cols.len() == 0 {
        Expr::Nop
    } else {
        let rest = s_fold_table(cols.drop_last());
        let term = Expr::ExpRef { id: cols.last(), prime: false };
        if rest is Nop {
            term
        } else {
            s_add(s_mul(Expr::Challenge { tag: ChallengeTag::U }, rest), term)
        }
    }
}

/// The lookup-side random linear combination: as `s_fold_table` but with the
/// accumulator on the left of the product, `acc * challenge + term`.
pub open spec fn s_fold_lookup(cols: Seq<usize>) -> Expr
    decreases cols.len(),
{
    if cols.len() == 0 {
        Expr::Nop
    } else {
        let rest = s_fold_lookup(cols.drop_last());
        let term = Expr::ExpRef { id: cols.last(), prime: false };
        if rest is Nop {
            term
        } else {
            s_add(s_mul(rest, Expr::Challenge { tag: ChallengeTag::U }), term)
        }
    }
}

/// Folds table columns into their random linear combination.
pub fn fold_table_columns(cols: &Vec<usize>) -> (r: Expression)
    ensures
        r == s_wrap(s_fold_table(cols@)),
{
    let mut acc = Expression::nop();
    let mut i: usize = 0;
    while i < cols.len()
        invariant
            i <= cols@.len(),
            acc == s_wrap(s_fold_table(cols@.take(i as int))),
        decreases cols@.len() - i,
    {
        let e = Expression::exp(cols[i], false);
        if acc.is_nop() {
            acc = e;
        } else {
            acc = Expression::add(
                Expression::mul(Expression::challenge(ChallengeTag::U), acc),
                e,
            );
        }
        i += 1;
        proof {
            assert(cols@.take(i as int).drop_last() =~= cols@.take(i as int - 1));
            assert(cols@.take(i as int).last() == cols@[i as int - 1]);
        }
    }
    proof {
        assert(cols@.take(cols@.len() as int) =~= cols@);
    }
    acc
}

/// Folds lookup columns into their random linear combination.
pub fn fold_lookup_columns(cols: &Vec<usize>) -> (r: Expression)
    ensures
        r == s_wrap(s_fold_lookup(cols@)),
{
    let mut acc = Expression::nop();
    let mut i: usize = 0;
    while i < cols.len()
        invariant
            i <= cols@.len(),
            acc == s_wrap(s_fold_lookup(cols@.take(i as int))),
        decreases cols@.len() - i,
    {
        let e = Expression::exp(cols[i], false);
        if acc.is_nop() {
            acc = e;
        } else {
            acc = Expression::add(
                Expression::mul(acc, Expression::challenge(ChallengeTag::U)),
                e,
            );
        }
        i += 1;
        proof {
            assert(cols@.take(i as int).drop_last() =~= cols@.take(i as int - 1));
            assert(cols@.take(i as int).last() == cols@[i as int - 1]);
        }
    }
    proof {
        assert(cols@.take(cols@.len() as int) =~= cols@);
    }
    acc
}

/// Folding at least one column never leaves the seed behind.
pub proof fn lemma_fold_nonempty_not_nop(cols: Seq<usize>)
    requires
        cols.len() > 0,
    ensures
        !(s_fold_table(cols) is Nop),
        !(s_fold_lookup(cols) is Nop),
    decreases cols.len(),
{
    if cols.len() > 1 {
        lemma_fold_nonempty_not_nop(cols.drop_last());
    }
}

/// Folding zero columns yields the no-op sentinel unchanged.
pub proof fn lemma_fold_seed_empty()
    ensures
        s_fold_table(Seq::<usize>::empty()) == Expr::Nop,
        s_fold_lookup(Seq::<usize>::empty()) == Expr::Nop,
{
}

/// Folding exactly one column yields that column's expression verbatim, with
/// no spurious challenge multiplication.
pub proof fn lemma_fold_seed_single(j: usize)
    ensures
        s_fold_table(seq![j]) == (Expr::ExpRef { id: j, prime: false }),
        s_fold_lookup(seq![j]) == (Expr::ExpRef { id: j, prime: false }),
{
    let s = seq![j];
    assert(s.len() == 1);
    assert(s.drop_last() =~= Seq::<usize>::empty());
    assert(s_fold_table(s.drop_last()) == Expr::Nop);
    assert(s_fold_lookup(s.drop_last()) == Expr::Nop);
    assert(s.last() == j);
}

/// Folding more than one column yields a left-associated chain: the last
/// term is added to the challenge-weighted fold of the rest.
pub proof fn lemma_fold_seed_chain(cols: Seq<usize>)
    requires
        cols.len() > 1,
    ensures
        s_fold_table(cols) == s_add(
            s_mul(Expr::Challenge { tag: ChallengeTag::U }, s_fold_table(cols.drop_last())),
            Expr::ExpRef { id: cols.last(), prime: false },
        ),
        s_fold_lookup(cols) == s_add(
            s_mul(s_fold_lookup(cols.drop_last()), Expr::Challenge { tag: ChallengeTag::U }),
            Expr::ExpRef { id: cols.last(), prime: false },
        ),
{
    lemma_fold_nonempty_not_nop(cols.drop_last());
}

/// Lowerability of a built operator node is that of its operands.
pub proof fn lemma_wf_ops(a: Expr, b: Expr, bound: int)
    ensures
        expr_wf(s_add(a, b), bound) == (expr_wf(a, bound) && expr_wf(b, bound)),
        expr_wf(s_sub(a, b), bound) == (expr_wf(a, bound) && expr_wf(b, bound)),
        expr_wf(s_mul(a, b), bound) == (expr_wf(a, bound) && expr_wf(b, bound)),
{
}

/// A fold over in-range columns is lowerable below any bound that covers
/// those columns.
pub proof fn lemma_fold_wf(cols: Seq<usize>, bound: int)
    requires
        cols.len() > 0,
        forall|i: int| 0 <= i < cols.len() ==> (#[trigger] cols[i] as int) < bound,
    ensures
        expr_wf(s_fold_table(cols), bound),
        expr_wf(s_fold_lookup(cols), bound),
    decreases cols.len(),
{
    let term = Expr::ExpRef { id: cols.last(), prime: false };
    assert((cols[cols.len() - 1] as int) < bound);
    assert(expr_wf(term, bound));
    if cols.len() > 1 {
        assert(forall|i: int|
            0 <= i < cols.drop_last().len() ==> (#[trigger] cols.drop_last()[i] as int) < bound);
        lemma_fold_wf(cols.drop_last(), bound);
        lemma_fold_nonempty_not_nop(cols.drop_last());
        let rest_t = s_fold_table(cols.drop_last());
        let rest_l = s_fold_lookup(cols.drop_last());
        assert(s_fold_table(cols) == s_add(
            s_mul(Expr::Challenge { tag: ChallengeTag::U }, rest_t),
            term,
        ));
        lemma_wf_ops(Expr::Challenge { tag: ChallengeTag::U }, rest_t, bound);
        lemma_wf_ops(s_mul(Expr::Challenge { tag: ChallengeTag::U }, rest_t), term, bound);
        assert(s_fold_lookup(cols) == s_add(
            s_mul(rest_l, Expr::Challenge { tag: ChallengeTag::U }),
            term,
        ));
        lemma_wf_ops(rest_l, Expr::Challenge { tag: ChallengeTag::U }, bound);
        lemma_wf_ops(s_mul(rest_l, Expr::Challenge { tag: ChallengeTag::U }), term, bound);
    } else {
        assert(s_fold_table(cols) == term);
        assert(s_fold_lookup(cols) == term);
    }
}

} // verus!
