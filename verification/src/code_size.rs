//! A bound on the size of compiled code, computed from a policy's tree: it tells, before
//! compiling, that the code fits the header's `u32` counter and the fields the `u16`
//! offsets.

use vstd::prelude::*;
use crate::ast::nodes::{Condition, Expression, LogicalOp, Policy, Requirements};
use crate::bytecode::{CompOp, Instruction, ValueModel};
use crate::compiler::{
    emit_ok, fits, gen_conds, gen_const, gen_expr, gen_in, gen_literal, gen_path, gen_policy,
    gen_seq, gen_where, literal_model, start_state, GenState,
};
use crate::parser::grammar::{ExprTree, PolicyTree, ReqTree};
use crate::parser::parse::{conds_tree, expr_tree, exprs_tree, policy_tree, values_tree};

verus! {

/// An upper bound on the instructions, and on the new field paths, that the code of an
/// expression takes: a load takes one; a comparison, its two sides and one; a logical
/// operation, its operands and one per operand and one more; a membership test, its
/// operand, one, and for each item the operand again and three; a call, its arguments,
/// one per argument and one more; an aggregate takes none (it fails to compile).
pub open spec fn tree_cost(t: ExprTree) -> nat
    decreases t, 0int,
{
    match t {
        ExprTree::Lit(_) => 1,
        ExprTree::PathT(_) => 1,
        ExprTree::Bin(l, _, r) => tree_cost(*l) + tree_cost(*r) + 1,
        ExprTree::Logic(_, ops) => trees_cost(ops) + ops.len() + 1,
        ExprTree::InT(x, list) => tree_cost(*x) + 1 + list.len() * (tree_cost(*x) + 3),
        ExprTree::Agg(..) => 0,
        ExprTree::CallT(_, args) => trees_cost(args) + args.len() + 1,
    }
}

/// The bounds of the expressions, added up.
pub open spec fn trees_cost(s: Seq<ExprTree>) -> nat
    decreases s, 1int,
{
    if s.len() == 0 {
        0
    } else {
        trees_cost(s.subrange(0, s.len() - 1)) + tree_cost(s[s.len() - 1])
    }
}

/// The bound for a list of conditions: their expressions and one each.
pub open spec fn conds_cost(s: Seq<ExprTree>) -> nat {
    trees_cost(s) + s.len()
}

/// The bound for a policy: its requirements and the final `Return`.
pub open spec fn policy_cost(t: PolicyTree) -> nat {
    match t.requirements {
        ReqTree::Requires(cs, w) => conds_cost(cs) + match w {
            Some(ws) => conds_cost(ws),
            None => 0,
        } + 1,
        ReqTree::Denies(_) => 1,
    }
}

/// `g` has at most `b` more instructions and at most `b` more field paths than `s`.
pub open spec fn grows_within(s: GenState, g: GenState, b: nat) -> bool {
    g.code.len() <= s.code.len() + b && g.fields.len() <= s.fields.len() + b
}

proof fn lemma_exprs_tree_len(s: Seq<Expression>)
    ensures
        exprs_tree(s).len() == s.len(),
    decreases s.len(),
{
    if s.len() > 0 {
        lemma_exprs_tree_len(s.subrange(0, s.len() - 1));
    }
}

proof fn lemma_values_tree_len(s: Seq<crate::ast::nodes::Value>)
    ensures
        values_tree(s).len() == s.len(),
    decreases s.len(),
{
    if s.len() > 0 {
        lemma_values_tree_len(s.subrange(0, s.len() - 1));
    }
}

/// The bound of the trees of the expressions: that of all but the last, and the last's.
proof fn lemma_exprs_cost_step(s: Seq<Expression>)
    requires
        s.len() > 0,
    ensures
        trees_cost(exprs_tree(s)) == trees_cost(exprs_tree(s.subrange(0, s.len() - 1)))
            + tree_cost(expr_tree(s[s.len() - 1])),
{
    let pre = s.subrange(0, s.len() - 1);
    lemma_exprs_tree_len(pre);
    let t = exprs_tree(s);
    assert(t.subrange(0, t.len() - 1) =~= exprs_tree(pre));
}

proof fn lemma_conds_cost_step(s: Seq<Condition>)
    requires
        s.len() > 0,
    ensures
        trees_cost(conds_tree(s)) == trees_cost(conds_tree(s.subrange(0, s.len() - 1)))
            + tree_cost(expr_tree(s[s.len() - 1].expr)),
{
    let t = conds_tree(s);
    assert(t.subrange(0, t.len() - 1) =~= conds_tree(s.subrange(0, s.len() - 1)));
}

proof fn lemma_first_cost(s: Seq<Expression>)
    requires
        s.len() > 0,
    ensures
        tree_cost(expr_tree(s[0])) <= trees_cost(exprs_tree(s)),
    decreases s.len(),
{
    lemma_exprs_cost_step(s);
    if s.len() > 1 {
        let pre = s.subrange(0, s.len() - 1);
        lemma_first_cost(pre);
        assert(pre[0] == s[0]);
    }
}

proof fn lemma_emit_grows(s: GenState, i: Instruction)
    ensures
        grows_within(s, emit_ok(s, i), 1),
        emit_ok(s, i).fields == s.fields,
{
}

proof fn lemma_literal_grows(v: crate::ast::nodes::Value, s: GenState)
    ensures
        grows_within(s, gen_literal(v, s), 1),
        gen_literal(v, s).fields == s.fields,
{
    match literal_model(v) {
        Ok(m) => {},
        Err(e) => {},
    }
}

proof fn lemma_expr_grows(e: Expression, s: GenState)
    ensures
        grows_within(s, gen_expr(e, s), tree_cost(expr_tree(e))),
    decreases e, 0int,
{
    if s.err is None {
        match e {
            Expression::Literal(v) => lemma_literal_grows(v, s),
            Expression::Path(p) => {
                crate::attrs::lemma_key_index(s.fields, crate::compiler::path_key(p));
            },
            Expression::Binary { left, op, right } => {
                lemma_expr_grows(*left, s);
                lemma_expr_grows(*right, gen_expr(*left, s));
            },
            Expression::Logical { op, operands } => {
                let ops = operands@;
                lemma_exprs_tree_len(ops);
                match op {
                    LogicalOp::And => lemma_seq_grows(ops, Some(Instruction::And), s),
                    LogicalOp::Or => lemma_seq_grows(ops, Some(Instruction::Or), s),
                    LogicalOp::Not => {
                        if ops.len() > 0 {
                            lemma_expr_grows(ops[0], s);
                            lemma_first_cost(ops);
                        }
                    },
                }
            },
            Expression::In { expr, list } => {
                lemma_values_tree_len(list@);
                lemma_expr_grows(*expr, s);
                let s1 = gen_expr(*expr, s);
                if list@.len() > 0 {
                    lemma_in_grows(*expr, list@, s1);
                }
            },
            Expression::Call { name, args } => {
                lemma_exprs_tree_len(args@);
                lemma_seq_grows(args@, None, s);
            },
            _ => {},
        }
    }
}

proof fn lemma_seq_grows(ops: Seq<Expression>, joiner: Option<Instruction>, s: GenState)
    ensures
        grows_within(s, gen_seq(ops, joiner, s), trees_cost(exprs_tree(ops)) + ops.len()),
    decreases ops, 0int,
{
    if ops.len() > 0 {
        let pre = ops.subrange(0, ops.len() - 1);
        lemma_seq_grows(pre, joiner, s);
        lemma_expr_grows(ops[ops.len() - 1], gen_seq(pre, joiner, s));
        lemma_exprs_cost_step(ops);
    }
}

proof fn lemma_in_grows(x: Expression, list: Seq<crate::ast::nodes::Value>, s: GenState)
    ensures
        grows_within(s, gen_in(x, list, s), list.len() * (tree_cost(expr_tree(x)) + 3)),
    decreases x, list.len() as int,
{
    if list.len() > 0 {
        let pre = list.subrange(0, list.len() - 1);
        let c = tree_cost(expr_tree(x));
        lemma_in_grows(x, pre, s);
        let s1 = gen_in(x, pre, s);
        if list.len() > 1 {
            lemma_expr_grows(x, s1);
        }
        let s2 = if list.len() > 1 { gen_expr(x, s1) } else { s1 };
        lemma_literal_grows(list[list.len() - 1], s2);
        let n = list.len() as int;
        assert((n - 1) * (c + 3) + (c + 3) == n * (c + 3)) by (nonlinear_arith);
    }
}

proof fn lemma_conds_grows(cs: Seq<Condition>, s: GenState)
    ensures
        grows_within(s, gen_conds(cs, s), conds_cost(conds_tree(cs))),
    decreases cs.len(),
{
    if cs.len() > 0 {
        let pre = cs.subrange(0, cs.len() - 1);
        lemma_conds_grows(pre, s);
        let s1 = gen_conds(pre, s);
        let s2 = if cs.len() > 1 { emit_ok(s1, Instruction::And) } else { s1 };
        lemma_expr_grows(cs[cs.len() - 1].expr, s2);
        lemma_conds_cost_step(cs);
    }
}

proof fn lemma_where_grows(cs: Seq<Condition>, s: GenState)
    ensures
        grows_within(s, gen_where(cs, s), conds_cost(conds_tree(cs))),
    decreases cs.len(),
{
    if cs.len() > 0 {
        let pre = cs.subrange(0, cs.len() - 1);
        lemma_where_grows(pre, s);
        lemma_expr_grows(cs[cs.len() - 1].expr, gen_where(pre, s));
        lemma_conds_cost_step(cs);
    }
}

/// A policy whose bound is at most 65535 compiles within the bytecode's counters.
pub proof fn law_cost_bounds_code(pol: Policy)
    requires
        policy_cost(policy_tree(pol)) <= 65535,
    ensures
        fits(gen_policy(pol, start_state())),
{
    let s = start_state();
    match pol.requirements {
        Requirements::Requires { conditions, where_clause } => {
            lemma_conds_grows(conditions@, s);
            let s1 = gen_conds(conditions@, s);
            match where_clause {
                Some(w) => lemma_where_grows(w@, s1),
                None => {},
            }
        },
        Requirements::Denies { .. } => {},
    }
}

/// The cap of computed bounds.
pub const COST_CAP: u64 = 65536;

/// A bound, capped at `COST_CAP`.
pub open spec fn capped(x: nat) -> nat {
    if x < COST_CAP { x } else { COST_CAP as nat }
}

fn cap_add(a: u64, b: u64) -> (r: u64)
    requires
        a <= COST_CAP,
        b <= COST_CAP,
    ensures
        r == capped((a + b) as nat),
{
    if a + b < COST_CAP { a + b } else { COST_CAP }
}

fn cap_len(n: usize) -> (r: u64)
    ensures
        r == capped(n as nat),
{
    if n < 65536 { n as u64 } else { COST_CAP }
}

proof fn lemma_capped_add(x: nat, y: nat)
    ensures
        capped(x + y) == capped((capped(x) + capped(y)) as nat),
{
}

proof fn lemma_capped_mul(n: nat, c: nat)
    ensures
        capped(n * (c + 3)) == capped(n * (capped(c) + 3)),
{
    if n > 0 {
        assert(n * (c + 3) >= c + 3) by (nonlinear_arith) requires n > 0;
        assert(n * (capped(c) + 3) >= capped(c) + 3) by (nonlinear_arith) requires n > 0;
        assert(n * (c + 3) >= n) by (nonlinear_arith) requires n > 0;
        assert(n * (capped(c) + 3) >= n) by (nonlinear_arith) requires n > 0;
    }
}

/// The capped bound of an expression.
pub fn expr_cost(e: &Expression) -> (c: u64)
    ensures
        c == capped(tree_cost(expr_tree(*e))),
    decreases e,
{
    match e {
        Expression::Literal(_) => 1,
        Expression::Path(_) => 1,
        Expression::Binary { left, op, right } => {
            let a = expr_cost(left);
            let b = expr_cost(right);
            proof {
                lemma_capped_add(tree_cost(expr_tree(**left)), tree_cost(expr_tree(**right)));
                lemma_capped_add(tree_cost(expr_tree(**left)) + tree_cost(expr_tree(**right)), 1);
            }
            cap_add(cap_add(a, b), 1)
        },
        Expression::Logical { op, operands } => {
            let mut acc: u64 = 0;
            let mut i: usize = 0;
            proof {
                assert(operands@.subrange(0, 0) =~= Seq::<Expression>::empty());
            }
            while i < operands.len()
                invariant
                    i <= operands@.len(),
                    *e == (Expression::Logical { op: *op, operands: *operands }),
                    acc == capped(trees_cost(exprs_tree(operands@.subrange(0, i as int)))),
                decreases operands@.len() - i,
            {
                proof {
                    vstd::std_specs::vec::axiom_vec_index_decreases(*operands, i as int);
                    assert(decreases_to!(*e => (*e)->operands));
                }
                let c = expr_cost(&operands[i]);
                proof {
                    let sub = operands@.subrange(0, i + 1);
                    assert(sub.subrange(0, i as int) =~= operands@.subrange(0, i as int));
                    lemma_exprs_cost_step(sub);
                    lemma_capped_add(trees_cost(exprs_tree(operands@.subrange(0, i as int))), tree_cost(expr_tree(operands@[i as int])));
                }
                acc = cap_add(acc, c);
                i = i + 1;
            }
            proof {
                assert(operands@.subrange(0, operands@.len() as int) =~= operands@);
                let t = trees_cost(exprs_tree(operands@));
                lemma_capped_add(t, operands@.len());
                lemma_capped_add(t + operands@.len(), 1);
                lemma_exprs_tree_len(operands@);
            }
            cap_add(cap_add(acc, cap_len(operands.len())), 1)
        },
        Expression::In { expr, list } => {
            let cx = expr_cost(expr);
            proof {
                lemma_values_tree_len(list@);
            }
            let ghost x = tree_cost(expr_tree(**expr));
            let n = list.len();
            let ghost m: nat = (n as nat) * ((cx as nat) + 3);
            let prod: u64 = if n == 0 {
                proof {
                    assert(m == 0) by (nonlinear_arith) requires m == (n as nat) * ((cx as nat) + 3), n == 0;
                }
                0
            } else if n >= 65536 {
                proof {
                    assert(m >= n) by (nonlinear_arith) requires m == (n as nat) * ((cx as nat) + 3), n > 0;
                }
                COST_CAP
            } else {
                proof {
                    assert(m <= 65535 * (65536 + 3)) by (nonlinear_arith)
                        requires m == (n as nat) * ((cx as nat) + 3), n < 65536, cx <= 65536;
                }
                let p: u64 = (n as u64) * (cx + 3);
                assert(p == m);
                if p < COST_CAP { p } else { COST_CAP }
            };
            assert(prod == capped(m));
            proof {
                lemma_capped_mul(n as nat, x);
                lemma_capped_add(x, 1);
                lemma_capped_add(x + 1, (n as nat) * (x + 3));
            }
            cap_add(cap_add(cx, 1), prod)
        },
        Expression::Aggregate { .. } => 0,
        Expression::Call { name, args } => {
            let mut acc: u64 = 0;
            let mut i: usize = 0;
            proof {
                assert(args@.subrange(0, 0) =~= Seq::<Expression>::empty());
            }
            while i < args.len()
                invariant
                    i <= args@.len(),
                    *e == (Expression::Call { name: *name, args: *args }),
                    acc == capped(trees_cost(exprs_tree(args@.subrange(0, i as int)))),
                decreases args@.len() - i,
            {
                proof {
                    vstd::std_specs::vec::axiom_vec_index_decreases(*args, i as int);
                    assert(decreases_to!(*e => (*e)->args));
                }
                let c = expr_cost(&args[i]);
                proof {
                    let sub = args@.subrange(0, i + 1);
                    assert(sub.subrange(0, i as int) =~= args@.subrange(0, i as int));
                    lemma_exprs_cost_step(sub);
                    lemma_capped_add(trees_cost(exprs_tree(args@.subrange(0, i as int))), tree_cost(expr_tree(args@[i as int])));
                }
                acc = cap_add(acc, c);
                i = i + 1;
            }
            proof {
                assert(args@.subrange(0, args@.len() as int) =~= args@);
                let t = trees_cost(exprs_tree(args@));
                lemma_capped_add(t, args@.len());
                lemma_capped_add(t + args@.len(), 1);
                lemma_exprs_tree_len(args@);
            }
            cap_add(cap_add(acc, cap_len(args.len())), 1)
        },
    }
}

/// The capped bound of a list of conditions.
fn conds_cost_exec(cs: &Vec<Condition>) -> (c: u64)
    ensures
        c == capped(conds_cost(conds_tree(cs@))),
{
    let mut acc: u64 = 0;
    let mut i: usize = 0;
    proof {
        assert(cs@.subrange(0, 0) =~= Seq::<Condition>::empty());
    }
    while i < cs.len()
        invariant
            i <= cs@.len(),
            acc == capped(trees_cost(conds_tree(cs@.subrange(0, i as int)))),
        decreases cs@.len() - i,
    {
        let c = expr_cost(&cs[i].expr);
        proof {
            let sub = cs@.subrange(0, i + 1);
            assert(sub.subrange(0, i as int) =~= cs@.subrange(0, i as int));
            lemma_conds_cost_step(sub);
            lemma_capped_add(trees_cost(conds_tree(cs@.subrange(0, i as int))), tree_cost(expr_tree(cs@[i as int].expr)));
        }
        acc = cap_add(acc, c);
        i = i + 1;
    }
    proof {
        assert(cs@.subrange(0, cs@.len() as int) =~= cs@);
        lemma_capped_add(trees_cost(conds_tree(cs@)), cs@.len());
    }
    cap_add(acc, cap_len(cs.len()))
}

/// The capped bound of a policy.
pub fn policy_cost_exec(p: &Policy) -> (c: u64)
    ensures
        c == capped(policy_cost(policy_tree(*p))),
{
    match &p.requirements {
        Requirements::Requires { conditions, where_clause } => {
            let a = conds_cost_exec(conditions);
            let ghost x = conds_cost(conds_tree(conditions@));
            match where_clause {
                Some(w) => {
                    let b = conds_cost_exec(w);
                    proof {
                        let y = conds_cost(conds_tree(w@));
                        lemma_capped_add(x, y);
                        lemma_capped_add(x + y, 1);
                    }
                    cap_add(cap_add(a, b), 1)
                },
                None => {
                    proof {
                        lemma_capped_add(x, 1);
                    }
                    cap_add(a, 1)
                },
            }
        },
        Requirements::Denies { .. } => 1,
    }
}

} // verus!
