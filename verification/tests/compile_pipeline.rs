use starky::codegen::{
    build_code, pil_code_gen, Context, NodeRef, OpKind, Operation, Segment,
};
use starky::errors::CompileError;
use starky::expression::{Expr, Expression};
use starky::layout::assign_offsets;
use starky::rewrite::renumber_refs;
use starky::starkinfo::StarkInfo;
use starky::types::{PlookupIdentity, Public, PublicCellKind, Reference, StarkStruct, Step, PIL};

fn wrap(e: Expr) -> Expression {
    Expression {
        expr: e,
        id_q: None,
        keep: false,
    }
}

fn cm(id: usize) -> Expr {
    Expr::CmRef { id, prime: false }
}

fn base_pil() -> PIL {
    PIL {
        n_commitments: 2,
        n_q: 0,
        n_constants: 1,
        references: vec![Reference { pol_deg: 8 }],
        expressions: vec![
            wrap(cm(0)),
            wrap(cm(1)),
            wrap(Expr::ConstRef { id: 0, prime: false }),
        ],
        publics: vec![],
        plookup_identities: vec![],
    }
}

fn params() -> StarkStruct {
    StarkStruct {
        n_bits: 3,
        n_bits_ext: 4,
        steps: vec![Step { n_bits: 4 }],
    }
}

fn lookup(f: Vec<usize>, t: Vec<usize>) -> PlookupIdentity {
    PlookupIdentity {
        f: Some(f),
        t: Some(t),
        sel_f: None,
        sel_t: None,
    }
}

fn assign(dest: NodeRef, a: NodeRef) -> Operation {
    Operation {
        op: OpKind::Assign,
        dest,
        a,
        b: None,
    }
}

fn exp_node(id: usize) -> NodeRef {
    NodeRef::Exp { id, prime: false }
}

#[test]
fn degree_mismatch_reports_both_values() {
    let mut pil = base_pil();
    let mut ss = params();
    ss.n_bits = 4; // 2^4 = 16 != 8
    let r = StarkInfo::new(&mut pil, &ss);
    assert_eq!(r.err(), Some(CompileError::MustEqualDegree(16, 8)));
}

#[test]
fn extended_domain_mismatch_reports_both_exponents() {
    let mut pil = base_pil();
    let mut ss = params();
    ss.steps = vec![Step { n_bits: 5 }]; // != n_bits_ext = 4
    let r = StarkInfo::new(&mut pil, &ss);
    assert_eq!(r.err(), Some(CompileError::MustEqualDegree(4, 5)));
}

#[test]
fn lookup_phase_emits_two_helper_columns_per_identity() {
    let mut pil = base_pil();
    pil.plookup_identities = vec![lookup(vec![0], vec![1])];
    let ss = params();
    let (info, program) = StarkInfo::new(&mut pil, &ss).unwrap();

    // Counters: exactly two new committed polynomials from one identity.
    assert_eq!(info.n_cm1, 2);
    assert_eq!(info.n_cm2, 2);
    assert_eq!(pil.n_commitments, 4);
    assert_eq!(pil.n_q, 0);

    // The argument context records the registered expressions and columns.
    assert_eq!(info.pu_ctx.len(), 1);
    let pu = &info.pu_ctx[0];
    assert_eq!(pu.t_exp_id, 3);
    assert_eq!(pu.f_exp_id, 4);
    assert_eq!(pu.h1_id, 2);
    assert_eq!(pu.h2_id, 3);
    assert_eq!(pu.z_id, 0);

    // Both accumulators are registered marked for materialization.
    assert!(pil.expressions[3].keep);
    assert!(pil.expressions[4].keep);

    // The compiled segment: lookup side first, each entry materialized
    // under its expression destination.
    let expected = vec![
        assign(exp_node(0), NodeRef::Cm { id: 0, prime: false }),
        assign(exp_node(4), exp_node(0)),
        assign(exp_node(1), NodeRef::Cm { id: 1, prime: false }),
        assign(exp_node(3), exp_node(1)),
    ];
    assert_eq!(program.step2prev.ops, expected);
    assert_eq!(program.step2prev.tmp_used, 0);
}

#[test]
fn selector_claims_a_quotient_slot() {
    let mut pil = base_pil();
    pil.plookup_identities = vec![PlookupIdentity {
        f: Some(vec![0]),
        t: Some(vec![1]),
        sel_f: None,
        sel_t: Some(2),
    }];
    let ss = params();
    let (_info, _program) = StarkInfo::new(&mut pil, &ss).unwrap();
    assert_eq!(pil.n_q, 1);
    assert_eq!(pil.expressions[3].id_q, Some(0));
    assert_eq!(pil.expressions[4].id_q, None);
}

#[test]
fn counters_grow_by_two_per_identity() {
    let mut pil = base_pil();
    pil.plookup_identities = vec![lookup(vec![0], vec![1]), lookup(vec![1], vec![2])];
    let ss = params();
    let (info, _program) = StarkInfo::new(&mut pil, &ss).unwrap();
    assert_eq!(info.n_cm2, 4);
    assert_eq!(pil.n_commitments, 6);
    // Helper-column ids are never reused across instances.
    assert_eq!(info.pu_ctx[0].h1_id, 2);
    assert_eq!(info.pu_ctx[0].h2_id, 3);
    assert_eq!(info.pu_ctx[1].h1_id, 4);
    assert_eq!(info.pu_ctx[1].h2_id, 5);
}

#[test]
fn missing_column_list_is_malformed() {
    let mut pil = base_pil();
    pil.plookup_identities = vec![PlookupIdentity {
        f: Some(vec![0]),
        t: None,
        sel_f: None,
        sel_t: None,
    }];
    let r = StarkInfo::new(&mut pil, &params());
    assert_eq!(r.err(), Some(CompileError::MalformedIdentity(0)));
}

#[test]
fn empty_column_list_is_malformed() {
    let mut pil = base_pil();
    pil.plookup_identities = vec![lookup(vec![0], vec![])];
    let r = StarkInfo::new(&mut pil, &params());
    assert_eq!(r.err(), Some(CompileError::MalformedIdentity(0)));
}

#[test]
fn out_of_range_column_is_unresolved() {
    let mut pil = base_pil();
    pil.plookup_identities = vec![lookup(vec![0], vec![9])];
    let r = StarkInfo::new(&mut pil, &params());
    assert_eq!(r.err(), Some(CompileError::UnresolvedReference(9)));
}

#[test]
fn dangling_table_entry_is_unresolved() {
    let mut pil = base_pil();
    pil.expressions[1] = wrap(Expr::ExpRef { id: 5, prime: false });
    let r = StarkInfo::new(&mut pil, &params());
    // The error names the offending table entry's index.
    assert_eq!(r.err(), Some(CompileError::UnresolvedReference(1)));
}

#[test]
fn compilation_is_deterministic() {
    let build = || {
        let mut pil = base_pil();
        pil.publics = vec![Public {
            pol_type: PublicCellKind::Im,
            pol_id: 0,
            idx: 0,
            id: 0,
        }];
        pil.plookup_identities = vec![lookup(vec![0], vec![1])];
        StarkInfo::new(&mut pil, &params()).unwrap()
    };
    let (i1, p1) = build();
    let (i2, p2) = build();
    assert_eq!(i1, i2);
    assert_eq!(p1, p2);
}

#[test]
fn shared_expression_is_lowered_once() {
    let mut pil = base_pil();
    // Both sides reference the same expression: it is materialized once
    // and reused as an operand thereafter.
    pil.plookup_identities = vec![lookup(vec![0], vec![0])];
    let (_info, program) = StarkInfo::new(&mut pil, &params()).unwrap();
    let hits = program
        .step2prev
        .ops
        .iter()
        .filter(|op| op.dest == exp_node(0))
        .count();
    assert_eq!(hits, 1);
    let expected = vec![
        assign(exp_node(0), NodeRef::Cm { id: 0, prime: false }),
        assign(exp_node(4), exp_node(0)),
        assign(exp_node(3), exp_node(0)),
    ];
    assert_eq!(program.step2prev.ops, expected);
}

#[test]
fn memo_hit_emits_nothing() {
    let exprs = vec![wrap(cm(0)), wrap(Expr::ExpRef { id: 0, prime: false })];
    let mut ctx = Context::empty();
    pil_code_gen(&mut ctx, &exprs, 1, false);
    let len_once = ctx.code.len();
    pil_code_gen(&mut ctx, &exprs, 1, false);
    assert_eq!(ctx.code.len(), len_once);
    let seg = build_code(&mut ctx);
    assert_eq!(seg.ops.len(), len_once);
    assert_eq!(ctx.code.len(), 0);
}

#[test]
fn public_calculator_is_renumbered_standalone() {
    let mut pil = base_pil();
    pil.expressions.push(wrap(Expr::Add(Box::new(cm(0)), Box::new(cm(1)))));
    pil.publics = vec![Public {
        pol_type: PublicCellKind::Im,
        pol_id: 3,
        idx: 0,
        id: 0,
    }];
    let (info, program) = StarkInfo::new(&mut pil, &params()).unwrap();
    assert_eq!(info.n_publics, 1);
    assert_eq!(program.publics_code.len(), 1);
    let seg = &program.publics_code[0];
    // The sum goes to a temporary, and the materialization destination was
    // renumbered into the private temporary namespace: no expression
    // reference survives.
    let expected = vec![
        Operation {
            op: OpKind::Add,
            dest: NodeRef::Tmp { id: 0 },
            a: NodeRef::Cm { id: 0, prime: false },
            b: Some(NodeRef::Cm { id: 1, prime: false }),
        },
        assign(NodeRef::Tmp { id: 1 }, NodeRef::Tmp { id: 0 }),
    ];
    assert_eq!(seg.ops, expected);
    assert_eq!(seg.tmp_used, 2);
}

#[test]
fn renumbering_an_already_rewritten_segment_changes_nothing() {
    let ops = vec![
        Operation {
            op: OpKind::Add,
            dest: NodeRef::Exp { id: 4, prime: false },
            a: NodeRef::Cm { id: 0, prime: false },
            b: Some(NodeRef::Exp { id: 4, prime: true }),
        },
    ];
    let mut seg = Segment { ops, tmp_used: 0 };
    renumber_refs(&mut seg);
    let once_ops = seg.ops.clone();
    let once_tmp = seg.tmp_used;
    // The two distinct (row-shift, id) keys got distinct temporaries.
    assert_eq!(
        once_ops,
        vec![Operation {
            op: OpKind::Add,
            dest: NodeRef::Tmp { id: 1 },
            a: NodeRef::Cm { id: 0, prime: false },
            b: Some(NodeRef::Tmp { id: 0 }),
        }]
    );
    assert_eq!(once_tmp, 2);
    renumber_refs(&mut seg);
    assert_eq!(seg.ops, once_ops);
    assert_eq!(seg.tmp_used, once_tmp);
}

#[test]
fn layout_offsets_are_disjoint_and_sum_to_total() {
    let mut pil = base_pil();
    pil.plookup_identities = vec![lookup(vec![0], vec![1])];
    let (info, _program) = StarkInfo::new(&mut pil, &params()).unwrap();
    // Base domain: 4 committed polynomials of degree 8.
    assert_eq!(info.map_offsets_n, vec![0, 8, 16, 24]);
    assert_eq!(info.map_total_n, 32);
    // Extended domain: the same polynomials at degree 16.
    assert_eq!(info.map_offsets_2ns, vec![0, 16, 32, 48]);
    assert_eq!(info.map_total_2ns, 64);
    assert_eq!(info.var_pol_map.len(), 4);
    assert_eq!(info.var_pol_map[0].section_pos, 0);
    assert_eq!(info.var_pol_map[2].section_pos, 0);
    assert_eq!(info.var_pol_map[3].section_pos, 1);
    for p in &info.var_pol_map {
        assert_eq!(p.deg, 8);
        assert_eq!(p.dim, 1);
    }
}

#[test]
fn layout_that_outgrows_the_index_range_is_refused() {
    let mut pil = base_pil();
    pil.n_q = usize::MAX - 1;
    let r = StarkInfo::new(&mut pil, &params());
    assert_eq!(r.err(), Some(CompileError::TooLarge));
}

#[test]
fn offset_assignment_is_the_running_sum() {
    let sizes = vec![4usize, 2, 3];
    let (offs, total) = assign_offsets(&sizes).unwrap();
    assert_eq!(offs, vec![0, 4, 6]);
    assert_eq!(total, 9);
}

#[test]
fn offset_assignment_refuses_overflow() {
    let sizes = vec![usize::MAX, 1];
    assert!(assign_offsets(&sizes).is_none());
}
