use starky::expression::{
    fold_lookup_columns, fold_table_columns, table_wf_check, ChallengeTag, Expr, Expression,
};

fn exp_ref(id: usize) -> Expr {
    Expr::ExpRef { id, prime: false }
}

fn challenge_u() -> Expr {
    Expr::Challenge {
        tag: ChallengeTag::U,
    }
}

#[test]
fn fold_zero_columns_is_noop_sentinel() {
    let cols: Vec<usize> = vec![];
    let t = fold_table_columns(&cols);
    assert!(t.is_nop());
    assert_eq!(t.expr, Expr::Nop);
    let f = fold_lookup_columns(&cols);
    assert!(f.is_nop());
}

#[test]
fn fold_one_column_is_that_column_verbatim() {
    let cols: Vec<usize> = vec![7];
    let t = fold_table_columns(&cols);
    assert_eq!(t.expr, exp_ref(7));
    assert_eq!(t.id_q, None);
    assert!(!t.keep);
    let f = fold_lookup_columns(&cols);
    assert_eq!(f.expr, exp_ref(7));
}

#[test]
fn fold_three_columns_is_left_associated_chain() {
    let cols: Vec<usize> = vec![1, 2, 3];
    let t = fold_table_columns(&cols);
    // ((u * e1 + e2) * u ... for the table side the challenge is on the left:
    // u * (u * e1 + e2) + e3
    let inner = Expr::Add(
        Box::new(Expr::Mul(Box::new(challenge_u()), Box::new(exp_ref(1)))),
        Box::new(exp_ref(2)),
    );
    let expected = Expr::Add(
        Box::new(Expr::Mul(Box::new(challenge_u()), Box::new(inner))),
        Box::new(exp_ref(3)),
    );
    assert_eq!(t.expr, expected);
}

#[test]
fn lookup_fold_puts_accumulator_on_the_left() {
    let cols: Vec<usize> = vec![1, 2];
    let f = fold_lookup_columns(&cols);
    let expected = Expr::Add(
        Box::new(Expr::Mul(Box::new(exp_ref(1)), Box::new(challenge_u()))),
        Box::new(exp_ref(2)),
    );
    assert_eq!(f.expr, expected);
}

#[test]
fn builders_build_symbolic_trees() {
    let a = Expression::exp(0, false);
    let b = Expression::challenge(ChallengeTag::DefVal);
    let s = Expression::sub(a, b);
    assert_eq!(
        s.expr,
        Expr::Sub(
            Box::new(exp_ref(0)),
            Box::new(Expr::Challenge {
                tag: ChallengeTag::DefVal
            })
        )
    );
}

#[test]
fn table_check_accepts_backward_references_only() {
    let good = vec![
        Expression {
            expr: Expr::CmRef { id: 0, prime: false },
            id_q: None,
            keep: false,
        },
        Expression {
            expr: exp_ref(0),
            id_q: None,
            keep: false,
        },
    ];
    assert_eq!(table_wf_check(&good), None);

    // A forward (or self) reference is not resolvable in an append-only
    // arena; the check reports the first offending entry's index.
    let bad = vec![
        Expression {
            expr: Expr::CmRef { id: 0, prime: false },
            id_q: None,
            keep: false,
        },
        Expression {
            expr: exp_ref(5),
            id_q: None,
            keep: false,
        },
    ];
    assert_eq!(table_wf_check(&bad), Some(1));
}
