//! How many live nodes and variables a body needs, and that the first pass
//! fails exactly when they are too many to number.

use crate::flow::start;
use crate::hir::{bindings, Arm, Binding, Body, Expr, ExprKind, Pat, Upvar};
use crate::ir_maps::{
    alloc_arm, alloc_arms, alloc_bindings, alloc_body, alloc_captures, alloc_expr, alloc_exprs,
    alloc_opt, alloc_param_pats, alloc_params, alloc_upvars, CaptureInfo, IrState, LiveNodeKind,
    VarKind, Violation, MAX_INDEX,
};
use crate::rwu::INV_INV_TRUE;
use vstd::prelude::*;

verus! {

/// How many of the bindings `bs[i..]` declare a variable.
pub open spec fn declaring(bs: Seq<Binding>, i: nat) -> nat
    decreases bs.len() - i,
{
    if i >= bs.len() {
        0
    } else if bs[i as int].first {
        1 + declaring(bs, i + 1)
    } else {
        declaring(bs, i + 1)
    }
}

/// How many live nodes the walk over an expression makes.
pub open spec fn nodes_of(e: Expr) -> nat
    decreases e, 0nat,
{
    match e.kind {
        ExprKind::Local(_) => 1,
        ExprKind::Compound(es, _) => nodes_from(es@, 0),
        ExprKind::Lazy(l, r) => 1 + nodes_of(*l) + nodes_of(*r),
        ExprKind::Assign(l, r) => nodes_of(*l) + nodes_of(*r),
        ExprKind::AssignOp(l, r) => nodes_of(*l) + nodes_of(*r),
        ExprKind::Let(pat, init) => declaring(bindings(pat, true), 0) + nodes_of_opt(init),
        ExprKind::Block(es, _) => nodes_from(es@, 0),
        ExprKind::Loop(body) => 1 + nodes_of(*body),
        ExprKind::Match(scrutinee, arms) => 1 + nodes_of(*scrutinee) + nodes_of_arms(arms@, 0),
        ExprKind::Ret(value) => nodes_of_opt(value),
        ExprKind::Break(_, value) => nodes_of_opt(value),
        ExprKind::Continue(_) => 0,
        ExprKind::Closure(body) => 1 + body.upvars@.len(),
    }
}

pub open spec fn nodes_of_opt(o: Option<Box<Expr>>) -> nat
    decreases o, 0nat,
{
    match o {
        Some(e) => nodes_of(*e),
        None => 0,
    }
}

pub open spec fn nodes_from(es: Seq<Expr>, i: nat) -> nat
    decreases es, es.len() - i,
{
    if i >= es.len() {
        0
    } else {
        nodes_of(es[i as int]) + nodes_from(es, i + 1)
    }
}

pub open spec fn nodes_of_arm(arm: Arm) -> nat
    decreases arm, 0nat,
{
    declaring(bindings(arm.pat, true), 0) + nodes_of(arm.body) + match arm.guard {
        Some(g) => nodes_of(g),
        None => 0,
    }
}

pub open spec fn nodes_of_arms(arms: Seq<Arm>, i: nat) -> nat
    decreases arms, arms.len() - i,
{
    if i >= arms.len() {
        0
    } else {
        nodes_of_arm(arms[i as int]) + nodes_of_arms(arms, i + 1)
    }
}

/// How many variables the walk over an expression makes.
pub open spec fn vars_in(e: Expr) -> nat
    decreases e, 0nat,
{
    match e.kind {
        ExprKind::Local(_) => 0,
        ExprKind::Compound(es, _) => vars_from(es@, 0),
        ExprKind::Lazy(l, r) => vars_in(*l) + vars_in(*r),
        ExprKind::Assign(l, r) => vars_in(*l) + vars_in(*r),
        ExprKind::AssignOp(l, r) => vars_in(*l) + vars_in(*r),
        ExprKind::Let(pat, init) => declaring(bindings(pat, true), 0) + vars_in_opt(init),
        ExprKind::Block(es, _) => vars_from(es@, 0),
        ExprKind::Loop(body) => vars_in(*body),
        ExprKind::Match(scrutinee, arms) => vars_in(*scrutinee) + vars_in_arms(arms@, 0),
        ExprKind::Ret(value) => vars_in_opt(value),
        ExprKind::Break(_, value) => vars_in_opt(value),
        ExprKind::Continue(_) => 0,
        ExprKind::Closure(_) => 0,
    }
}

pub open spec fn vars_in_opt(o: Option<Box<Expr>>) -> nat
    decreases o, 0nat,
{
    match o {
        Some(e) => vars_in(*e),
        None => 0,
    }
}

pub open spec fn vars_from(es: Seq<Expr>, i: nat) -> nat
    decreases es, es.len() - i,
{
    if i >= es.len() {
        0
    } else {
        vars_in(es[i as int]) + vars_from(es, i + 1)
    }
}

pub open spec fn vars_in_arm(arm: Arm) -> nat
    decreases arm, 0nat,
{
    declaring(bindings(arm.pat, true), 0) + vars_in(arm.body) + match arm.guard {
        Some(g) => vars_in(g),
        None => 0,
    }
}

pub open spec fn vars_in_arms(arms: Seq<Arm>, i: nat) -> nat
    decreases arms, arms.len() - i,
{
    if i >= arms.len() {
        0
    } else {
        vars_in_arm(arms[i as int]) + vars_in_arms(arms, i + 1)
    }
}

/// How many variables the parameters `ps[i..]` declare.
pub open spec fn vars_of_params(ps: Seq<Pat>, i: nat) -> nat
    decreases ps.len() - i,
{
    if i >= ps.len() {
        0
    } else {
        declaring(bindings(ps[i as int], true), 0) + vars_of_params(ps, i + 1)
    }
}

/// The live nodes of a body: those of its value and the two special ones.
pub open spec fn body_nodes(body: Body) -> nat {
    nodes_of(body.value) + 2
}

/// The variables of a body: those it captures, those its parameters bind
/// and those its value declares.
pub open spec fn body_vars(body: Body) -> nat {
    body.upvars@.len() + vars_of_params(body.params@, 0) + vars_in(body.value)
}

/// The body has no more live nodes and variables than can be numbered, and
/// fewer facts than a tag can tell apart.
pub open spec fn fits(body: Body) -> bool {
    &&& body_nodes(body) <= MAX_INDEX
    &&& body_vars(body) <= MAX_INDEX
    &&& body_nodes(body) * body_vars(body) < INV_INV_TRUE
}

/// Whether a walk that starts from tables `st` and needs `nodes` more live
/// nodes and `vars` more variables ends as `r` says: with that many more,
/// or without tables where they are too many.
pub open spec fn sized(st: IrState, r: Result<IrState, Violation>, nodes: nat, vars: nat) -> bool {
    match r {
        Ok(s2) => s2.lnks.len() == st.lnks.len() + nodes && s2.var_kinds.len()
            == st.var_kinds.len() + vars,
        Err(v) => v == Violation::TooLarge && (st.lnks.len() + nodes > MAX_INDEX
            || st.var_kinds.len() + vars > MAX_INDEX),
    }
}

pub proof fn lemma_size_bindings(st: IrState, bs: Seq<Binding>, i: nat)
    ensures
        sized(st, alloc_bindings(st, bs, i), declaring(bs, i), declaring(bs, i)),
    decreases bs.len() - i,
{
    if i < bs.len() {
        if !bs[i as int].first {
            lemma_size_bindings(st, bs, i + 1);
        } else {
            match st.add_live_node_for_node(
                bs[i as int].id,
                LiveNodeKind::VarDefNode(bs[i as int].span),
            ) {
                Err(_) => {},
                Ok(s1) => match s1.add_variable(crate::ir_maps::local_of(bs[i as int])) {
                    Err(_) => {},
                    Ok(s2) => {
                        lemma_size_bindings(s2, bs, i + 1);
                    },
                },
            }
        }
    }
}

pub proof fn lemma_size_params(st: IrState, bs: Seq<Binding>, i: nat)
    ensures
        sized(st, alloc_params(st, bs, i), 0, declaring(bs, i)),
    decreases bs.len() - i,
{
    if i < bs.len() {
        if !bs[i as int].first {
            lemma_size_params(st, bs, i + 1);
        } else {
            match st.add_variable(crate::ir_maps::param_of(bs[i as int])) {
                Err(_) => {},
                Ok(s1) => {
                    lemma_size_params(s1, bs, i + 1);
                },
            }
        }
    }
}

pub proof fn lemma_size_param_pats(st: IrState, ps: Seq<Pat>, i: nat)
    ensures
        sized(st, alloc_param_pats(st, ps, i), 0, vars_of_params(ps, i)),
    decreases ps.len() - i,
{
    if i < ps.len() {
        let bs = bindings(ps[i as int], true);
        lemma_size_params(st, bs, 0);
        match alloc_params(st, bs, 0) {
            Err(_) => {},
            Ok(s1) => {
                lemma_size_param_pats(s1, ps, i + 1);
            },
        }
    }
}

pub proof fn lemma_size_upvars(st: IrState, us: Seq<Upvar>, i: nat)
    requires
        i <= us.len(),
    ensures
        sized(st, alloc_upvars(st, us, i), 0, (us.len() - i) as nat),
    decreases us.len() - i,
{
    if i < us.len() {
        match st.add_variable(VarKind::Upvar(us[i as int].var, us[i as int].name)) {
            Err(_) => {},
            Ok(s1) => {
                lemma_size_upvars(s1, us, i + 1);
            },
        }
    }
}

pub proof fn lemma_size_captures(st: IrState, us: Seq<Upvar>, i: nat, cs: Seq<CaptureInfo>)
    requires
        i <= us.len(),
    ensures
        match alloc_captures(st, us, i, cs) {
            Ok((s2, _)) => s2.lnks.len() == st.lnks.len() + us.len() - i && s2.var_kinds
                == st.var_kinds,
            Err(v) => v == Violation::TooLarge && st.lnks.len() + us.len() - i > MAX_INDEX,
        },
    decreases us.len() - i,
{
    if i < us.len() {
        match st.add_live_node(LiveNodeKind::UpvarNode(us[i as int].span)) {
            Err(_) => {},
            Ok((s1, ln)) => {
                lemma_size_captures(
                    s1,
                    us,
                    i + 1,
                    cs.push(CaptureInfo { ln, var_hid: us[i as int].var }),
                );
            },
        }
    }
}

/// The walk over an expression makes as many live nodes and variables as
/// the expression needs, and fails exactly where they cannot be numbered.
pub proof fn lemma_size_expr(st: IrState, e: Expr)
    ensures
        sized(st, alloc_expr(st, e), nodes_of(e), vars_in(e)),
    decreases e, 0nat,
{
    let node = LiveNodeKind::ExprNode(e.span);
    match e.kind {
        ExprKind::Local(_) => {},
        ExprKind::Compound(es, _) => {
            lemma_size_exprs(st, es@, 0);
        },
        ExprKind::Lazy(l, r) => {
            match st.add_live_node_for_node(e.id, node) {
                Err(_) => {},
                Ok(s1) => {
                    lemma_size_expr(s1, *l);
                    match alloc_expr(s1, *l) {
                        Err(_) => {},
                        Ok(s2) => {
                            lemma_size_expr(s2, *r);
                        },
                    }
                },
            }
        },
        ExprKind::Assign(l, r) => {
            lemma_size_expr(st, *r);
            match alloc_expr(st, *r) {
                Err(_) => {},
                Ok(s1) => {
                    lemma_size_expr(s1, *l);
                },
            }
        },
        ExprKind::AssignOp(l, r) => {
            lemma_size_expr(st, *r);
            match alloc_expr(st, *r) {
                Err(_) => {},
                Ok(s1) => {
                    lemma_size_expr(s1, *l);
                },
            }
        },
        ExprKind::Let(pat, init) => {
            lemma_size_bindings(st, bindings(pat, true), 0);
            match alloc_bindings(st, bindings(pat, true), 0) {
                Err(_) => {},
                Ok(s1) => {
                    lemma_size_opt(s1, init);
                },
            }
        },
        ExprKind::Block(es, _) => {
            lemma_size_exprs(st, es@, 0);
        },
        ExprKind::Loop(body) => {
            match st.add_live_node_for_node(e.id, node) {
                Err(_) => {},
                Ok(s1) => {
                    lemma_size_expr(s1, *body);
                },
            }
        },
        ExprKind::Match(scrutinee, arms) => {
            match st.add_live_node_for_node(e.id, node) {
                Err(_) => {},
                Ok(s1) => {
                    lemma_size_expr(s1, *scrutinee);
                    match alloc_expr(s1, *scrutinee) {
                        Err(_) => {},
                        Ok(s2) => {
                            lemma_size_arms(s2, arms@, 0);
                        },
                    }
                },
            }
        },
        ExprKind::Ret(value) => {
            lemma_size_opt(st, value);
        },
        ExprKind::Break(_, value) => {
            lemma_size_opt(st, value);
        },
        ExprKind::Continue(_) => {},
        ExprKind::Closure(body) => {
            match st.add_live_node_for_node(e.id, node) {
                Err(_) => {},
                Ok(s1) => {
                    lemma_size_captures(s1, body.upvars@, 0, Seq::empty());
                },
            }
        },
    }
}

pub proof fn lemma_size_opt(st: IrState, o: Option<Box<Expr>>)
    ensures
        sized(st, alloc_opt(st, o), nodes_of_opt(o), vars_in_opt(o)),
    decreases o, 0nat,
{
    match o {
        Some(e) => lemma_size_expr(st, *e),
        None => {},
    }
}

pub proof fn lemma_size_exprs(st: IrState, es: Seq<Expr>, i: nat)
    ensures
        sized(st, alloc_exprs(st, es, i), nodes_from(es, i), vars_from(es, i)),
    decreases es, es.len() - i,
{
    if i < es.len() {
        lemma_size_expr(st, es[i as int]);
        match alloc_expr(st, es[i as int]) {
            Err(_) => {},
            Ok(s1) => {
                lemma_size_exprs(s1, es, i + 1);
            },
        }
    }
}

pub proof fn lemma_size_arm(st: IrState, arm: Arm)
    ensures
        sized(st, alloc_arm(st, arm), nodes_of_arm(arm), vars_in_arm(arm)),
    decreases arm, 0nat,
{
    lemma_size_bindings(st, bindings(arm.pat, true), 0);
    match alloc_bindings(st, bindings(arm.pat, true), 0) {
        Err(_) => {},
        Ok(s1) => match arm.guard {
            Some(g) => {
                lemma_size_expr(s1, g);
                match alloc_expr(s1, g) {
                    Err(_) => {},
                    Ok(s2) => {
                        lemma_size_expr(s2, arm.body);
                    },
                }
            },
            None => {
                lemma_size_expr(s1, arm.body);
            },
        },
    }
}

pub proof fn lemma_size_arms(st: IrState, arms: Seq<Arm>, i: nat)
    ensures
        sized(st, alloc_arms(st, arms, i), nodes_of_arms(arms, i), vars_in_arms(arms, i)),
    decreases arms, arms.len() - i,
{
    if i < arms.len() {
        lemma_size_arm(st, arms[i as int]);
        match alloc_arm(st, arms[i as int]) {
            Err(_) => {},
            Ok(s1) => {
                lemma_size_arms(s1, arms, i + 1);
            },
        }
    }
}

/// The first pass and the setting up of the second succeed exactly on the
/// bodies that fit, and give tables of the size that the body needs.
pub proof fn lemma_size_body(body: Body)
    ensures
        match alloc_body(body) {
            Ok(ir) => match start(ir) {
                Ok((cx, _)) => fits(body) && cx.ir.lnks.len() == body_nodes(body)
                    && cx.ir.var_kinds.len() == body_vars(body),
                Err(v) => !fits(body) && v == Violation::TooLarge,
            },
            Err(v) => !fits(body) && v == Violation::TooLarge,
        },
{
    let s0 = IrState::empty();
    lemma_size_upvars(s0, body.upvars@, 0);
    match alloc_upvars(s0, body.upvars@, 0) {
        Err(_) => {},
        Ok(s1) => {
            lemma_size_param_pats(s1, body.params@, 0);
            match alloc_param_pats(s1, body.params@, 0) {
                Err(_) => {},
                Ok(s2) => {
                    lemma_size_expr(s2, body.value);
                    match alloc_expr(s2, body.value) {
                        Err(_) => {},
                        Ok(ir) => {
                            assert(ir.lnks.len() == nodes_of(body.value));
                            assert(ir.var_kinds.len() == body_vars(body));
                        },
                    }
                },
            }
        },
    }
    if body_vars(body) > MAX_INDEX {
        assert(body_nodes(body) * body_vars(body) >= INV_INV_TRUE) by (nonlinear_arith)
            requires
                body_nodes(body) >= 2,
                body_vars(body) > 0xFFFF_FFFF,
        ;
    }
    if body_nodes(body) > MAX_INDEX && body_vars(body) >= 1 {
        assert(body_nodes(body) * body_vars(body) >= INV_INV_TRUE) by (nonlinear_arith)
            requires
                body_nodes(body) > 0xFFFF_FFFF,
                body_vars(body) >= 1,
        ;
    }
}

} // verus!
