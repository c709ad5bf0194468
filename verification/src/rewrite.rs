//! The tree rewriter over a segment's node references.
//!
//! Its use here: renumbering every expression-table reference inside a
//! segment into a private temporary namespace, keyed by (row-shift,
//! original id), so the segment can run standalone with no access to the
//! expression table. A segment that holds no table references any more is
//! left exactly as it is.

use crate::codegen::{NodeRef, Operation, Segment};
use vstd::prelude::*;

verus! {

broadcast use vstd::std_specs::vec::axiom_spec_len;

/// First match for key (prime, id) in the rewrite map, front to back.
pub open spec fn map_find(m: Seq<(bool, usize, usize)>, prime: bool, id: usize) -> Option<usize>
    decreases m.len(),
{
    if m.len() == 0 {
        None
    } else if m[0].0 == prime && m[0].1 == id {
        Some(m[0].2)
    } else {
        map_find(m.drop_first(), prime, id)
    }
}

/// Rewriting one node: a table reference is replaced by the temporary its
/// key is mapped to, allocating a fresh temporary for a key seen first
/// here; every other node passes through untouched.
pub open spec fn s_fix_node(m: Seq<(bool, usize, usize)>, t: int, n: NodeRef) -> (
    Seq<(bool, usize, usize)>,
    int,
    NodeRef,
) {
    match n {
        NodeRef::Exp { id, prime } => match map_find(m, prime, id) {
            Some(tmp) => (m, t, NodeRef::Tmp { id: tmp }),
            None => (m.push((prime, id, t as usize)), t + 1, NodeRef::Tmp { id: t as usize }),
        },
        _ => (m, t, n),
    }
}

/// Rewriting one operation: first operand, second operand, destination.
pub open spec fn s_fix_op(m: Seq<(bool, usize, usize)>, t: int, op: Operation) -> (
    Seq<(bool, usize, usize)>,
    int,
    Operation,
) {
    let ra = s_fix_node(m, t, op.a);
    let rb = match op.b {
        Some(nb) => {
            let r = s_fix_node(ra.0, ra.1, nb);
            (r.0, r.1, Some(r.2))
        },
        None => (ra.0, ra.1, None),
    };
    let rd = s_fix_node(rb.0, rb.1, op.dest);
    (rd.0, rd.1, Operation { op: op.op, dest: rd.2, a: ra.2, b: rb.2 })
}

/// Rewriting a whole operation list in order, threading the map and the
/// temporary counter.
pub open spec fn s_renumber(ops: Seq<Operation>, m: Seq<(bool, usize, usize)>, t: int) -> (
    Seq<Operation>,
    Seq<(bool, usize, usize)>,
    int,
)
    decreases ops.len(),
{
    if ops.len() == 0 {
        (Seq::empty(), m, t)
    } else {
        let pre = s_renumber(ops.drop_last(), m, t);
        let r = s_fix_op(pre.1, pre.2, ops.last());
        (pre.0.push(r.2), r.0, r.1)
    }
}

/// Executable first-match lookup in the rewrite map.
fn map_lookup(m: &Vec<(bool, usize, usize)>, prime: bool, id: usize) -> (r: Option<usize>)
    ensures
        r == map_find(m@, prime, id),
{
    let mut i: usize = 0;
    proof {
        assert(m@.skip(0) =~= m@);
    }
    while i < m.len()
        invariant
            i <= m@.len(),
            map_find(m@, prime, id) == map_find(m@.skip(i as int), prime, id),
        decreases m@.len() - i,
    {
        let e = m[i];
        proof {
            assert(m@.skip(i as int)[0] == e);
        }
        if e.0 == prime && e.1 == id {
            return Some(e.2);
        }
        i += 1;
        proof {
            assert(m@.skip(i as int - 1).drop_first() =~= m@.skip(i as int));
        }
    }
    proof {
        assert(m@.skip(m@.len() as int) =~= Seq::<(bool, usize, usize)>::empty());
    }
    None
}

/// Rewrites one node, mirroring `s_fix_node`.
fn fix_node(m: &mut Vec<(bool, usize, usize)>, t: &mut usize, n: NodeRef) -> (r: NodeRef)
    requires
        *old(t) + 1 <= usize::MAX,
    ensures
        ({
            let s = s_fix_node(old(m)@, *old(t) as int, n);
            final(m)@ == s.0 && *final(t) as int == s.1 && r == s.2
        }),
        *final(t) <= *old(t) + 1,
{
    match n {
        NodeRef::Exp { id, prime } => {
            match map_lookup(m, prime, id) {
                Some(tmp) => NodeRef::Tmp { id: tmp },
                None => {
                    let nt = *t;
                    m.push((prime, id, nt));
                    *t = nt + 1;
                    NodeRef::Tmp { id: nt }
                },
            }
        },
        _ => n,
    }
}

/// Rewrites one operation, mirroring `s_fix_op`.
fn fix_op(m: &mut Vec<(bool, usize, usize)>, t: &mut usize, op: Operation) -> (r: Operation)
    requires
        *old(t) + 3 <= usize::MAX,
    ensures
        ({
            let s = s_fix_op(old(m)@, *old(t) as int, op);
            final(m)@ == s.0 && *final(t) as int == s.1 && r == s.2
        }),
        *final(t) <= *old(t) + 3,
{
    let na = fix_node(m, t, op.a);
    let nb = match op.b {
        Some(x) => Some(fix_node(m, t, x)),
        None => None,
    };
    let nd = fix_node(m, t, op.dest);
    Operation { op: op.op, dest: nd, a: na, b: nb }
}

/// Renumbers every expression-table reference of a segment into a fresh,
/// self-contained temporary namespace, starting above the temporaries the
/// segment already uses. The precondition only keeps the new temporary
/// indices within the machine's range.
pub fn renumber_refs(seg: &mut Segment)
    requires
        old(seg)@.tmp_used + 3 * old(seg)@.ops.len() + 3 <= usize::MAX,
    ensures
        ({
            let r = s_renumber(old(seg)@.ops, Seq::empty(), old(seg)@.tmp_used as int);
            final(seg)@.ops == r.0 && final(seg)@.tmp_used as int == r.2
        }),
{
    let ghost orig = seg@;
    let mut m: Vec<(bool, usize, usize)> = Vec::new();
    let mut t: usize = seg.tmp_used;
    let mut i: usize = 0;
    while i < seg.ops.len()
        invariant
            i <= orig.ops.len(),
            seg.ops@.len() == orig.ops.len(),
            seg.tmp_used == orig.tmp_used,
            orig.tmp_used + 3 * orig.ops.len() + 3 <= usize::MAX,
            t as int <= orig.tmp_used + 3 * i,
            forall|j: int| i <= j < orig.ops.len() ==> seg.ops@[j] == orig.ops[j],
            ({
                let r = s_renumber(orig.ops.take(i as int), Seq::empty(), orig.tmp_used as int);
                seg.ops@.take(i as int) == r.0 && m@ == r.1 && t as int == r.2
            }),
        decreases orig.ops.len() - i,
    {
        let op = seg.ops[i];
        proof {
            assert(seg.ops@[i as int] == orig.ops[i as int]);
        }
        let newop = fix_op(&mut m, &mut t, op);
        seg.ops[i] = newop;
        i += 1;
        proof {
            assert(orig.ops.take(i as int).drop_last() =~= orig.ops.take(i as int - 1));
            assert(orig.ops.take(i as int).last() == orig.ops[i as int - 1]);
            assert(seg.ops@.take(i as int) =~= seg.ops@.take(i as int - 1).push(newop));
        }
    }
    seg.tmp_used = t;
    proof {
        assert(orig.ops.take(orig.ops.len() as int) =~= orig.ops);
        assert(seg.ops@.take(orig.ops.len() as int) =~= seg.ops@);
    }
}

/// A node that holds no expression-table reference.
pub open spec fn node_clean(n: NodeRef) -> bool {
    !(n is Exp)
}

/// An operation that holds no expression-table reference.
pub open spec fn op_clean(op: Operation) -> bool {
    node_clean(op.dest) && node_clean(op.a) && match op.b {
        Some(nb) => node_clean(nb),
        None => true,
    }
}

/// An operation list with no expression-table references left: an
/// already-rewritten, self-contained segment.
pub open spec fn ops_clean(ops: Seq<Operation>) -> bool {
    forall|i: int| 0 <= i < ops.len() ==> op_clean(#[trigger] ops[i])
}

/// The rewriter's output is always clean.
pub proof fn lemma_renumber_clean(ops: Seq<Operation>, m: Seq<(bool, usize, usize)>, t: int)
    ensures
        ops_clean(s_renumber(ops, m, t).0),
    decreases ops.len(),
{
    if ops.len() > 0 {
        let pre = s_renumber(ops.drop_last(), m, t);
        lemma_renumber_clean(ops.drop_last(), m, t);
        let r = s_fix_op(pre.1, pre.2, ops.last());
        assert(op_clean(r.2));
        assert forall|i: int| 0 <= i < pre.0.push(r.2).len() implies op_clean(
            #[trigger] pre.0.push(r.2)[i],
        ) by {
            if i < pre.0.len() {
                assert(pre.0.push(r.2)[i] == pre.0[i]);
            }
        }
    }
}

/// Rewriting a clean operation changes nothing.
pub proof fn lemma_fix_op_noop(m: Seq<(bool, usize, usize)>, t: int, op: Operation)
    requires
        op_clean(op),
    ensures
        s_fix_op(m, t, op) == (m, t, op),
{
}

/// Rewriting an already-rewritten list is a no-op: the list, the map and
/// the counter all come back unchanged.
pub proof fn lemma_renumber_noop(ops: Seq<Operation>, m: Seq<(bool, usize, usize)>, t: int)
    requires
        ops_clean(ops),
    ensures
        s_renumber(ops, m, t) == (ops, m, t),
    decreases ops.len(),
{
    if ops.len() > 0 {
        assert(forall|i: int|
            0 <= i < ops.drop_last().len() ==> op_clean(#[trigger] ops.drop_last()[i]));
        lemma_renumber_noop(ops.drop_last(), m, t);
        assert(op_clean(ops.last()));
        lemma_fix_op_noop(m, t, ops.last());
        assert(ops.drop_last().push(ops.last()) =~= ops);
    }
}

/// Rewrite idempotence: renumbering the output of the renumbering pass,
/// with a fresh map and the counter it ended at, gives that output back
/// unchanged.
pub proof fn lemma_rewrite_idempotent(ops: Seq<Operation>, tmp: int)
    ensures
        ({
            let once = s_renumber(ops, Seq::empty(), tmp);
            let twice = s_renumber(once.0, Seq::empty(), once.2);
            twice.0 == once.0 && twice.2 == once.2
        }),
{
    let once = s_renumber(ops, Seq::empty(), tmp);
    lemma_renumber_clean(ops, Seq::empty(), tmp);
    lemma_renumber_noop(once.0, Seq::empty(), once.2);
}

} // verus!
