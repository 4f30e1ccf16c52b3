//! What holds of every list of findings: each finding names at least one
//! place, and none is about a variable whose name asks for silence.

use crate::diagnostics::{
    analysis, check_arm, check_arms, check_expr, check_exprs, check_group, check_opt, check_params,
    check_pat, check_place, check_upvars, dead_assign, group_parts, is_leader, name_of,
    report_unused, should_warn, DiagnosticKind, DiagnosticView, Fix, Part, PatRole,
};
use crate::flow::{flow_body, start, Cx, Flow};
use crate::hir::{bindings, Arm, Binding, Body, Expr, ExprKind, Pat, Upvar};
use crate::ir_maps::{alloc_body, live_node_of, variable_of};
use crate::rwu::{LiveNode, Variable};
use vstd::prelude::*;

verus! {

/// Every finding of the list names a place and is about a variable whose
/// name does not ask for silence.
pub open spec fn tidy(ds: Seq<DiagnosticView>) -> bool {
    forall|i: int| 0 <= i < ds.len() ==> (#[trigger] ds[i]).parts.len() > 0 && should_warn(ds[i].name)
}

/// The places of a name include the place of each binding of that name.
pub proof fn lemma_group_has_places(
    bs: Seq<Binding>,
    name: Seq<char>,
    n: nat,
    short: Fix,
    other: Fix,
    k: int,
)
    requires
        0 <= k < n <= bs.len(),
        bs[k].name@ == name,
    ensures
        group_parts(bs, name, n, short, other).len() > 0,
    decreases n,
{
    if k < n - 1 {
        lemma_group_has_places(bs, name, (n - 1) as nat, short, other, k);
    }
}

pub proof fn lemma_tidy_push(ds: Seq<DiagnosticView>, d: DiagnosticView)
    requires
        tidy(ds),
        d.parts.len() > 0,
        should_warn(d.name),
    ensures
        tidy(ds.push(d)),
{
    assert forall|i: int| 0 <= i < ds.push(d).len() implies (#[trigger] ds.push(d)[i]).parts.len()
        > 0 && should_warn(ds.push(d)[i].name) by {
        if i < ds.len() {
            assert(ds.push(d)[i] == ds[i]);
        }
    }
}

pub proof fn lemma_tidy_dead_assign(
    cx: Cx,
    f: Flow,
    kind: DiagnosticKind,
    parts: Seq<Part>,
    dead: bool,
    var: Variable,
    acc: Seq<DiagnosticView>,
)
    requires
        tidy(acc),
        parts.len() > 0,
    ensures
        tidy(dead_assign(cx, f, kind, parts, dead, var, acc)),
{
    if dead && should_warn(name_of(cx, var)) {
        lemma_tidy_push(acc, DiagnosticView { kind, name: name_of(cx, var), parts });
    }
}

pub proof fn lemma_tidy_group(
    cx: Cx,
    f: Flow,
    bs: Seq<Binding>,
    i: int,
    role: PatRole,
    acc: Seq<DiagnosticView>,
)
    requires
        tidy(acc),
        0 <= i < bs.len(),
    ensures
        check_group(cx, f, bs, i, role, acc) matches Ok(ds) ==> tidy(ds),
{
    let name = bs[i].name@;
    lemma_group_has_places(bs, name, bs.len(), Fix::Nothing, Fix::Nothing, i);
    lemma_group_has_places(bs, name, bs.len(), Fix::IgnoreField, Fix::Wildcard, i);
    lemma_group_has_places(bs, name, bs.len(), Fix::IgnoreField, Fix::Underscore, i);
    let found = match role {
        PatRole::Param(entry_ln) => Ok(entry_ln),
        _ => live_node_of(cx.ir, bs[i].id),
    };
    match found {
        Err(_) => {},
        Ok(ln) => match variable_of(cx.ir, bs[i].id) {
            Err(_) => {},
            Ok(var) => {
                if !f.used(ln, var) {
                    match report_unused(cx, f, bs, i, ln, var, acc) {
                        Err(_) => {},
                        Ok(ds) => {
                            if ds != acc {
                                let d = ds.last();
                                assert(ds == acc.push(d));
                                lemma_tidy_push(acc, d);
                            }
                        },
                    }
                } else {
                    let parts = group_parts(bs, name, bs.len(), Fix::Nothing, Fix::Nothing);
                    lemma_tidy_dead_assign(
                        cx,
                        f,
                        DiagnosticKind::DeadArgument,
                        parts,
                        !f.reader(ln, var).valid(),
                        var,
                        acc,
                    );
                }
            },
        },
    }
}

pub proof fn lemma_tidy_pat(
    cx: Cx,
    f: Flow,
    bs: Seq<Binding>,
    i: nat,
    role: PatRole,
    acc: Seq<DiagnosticView>,
)
    requires
        tidy(acc),
    ensures
        check_pat(cx, f, bs, i, role, acc) matches Ok(ds) ==> tidy(ds),
    decreases bs.len() - i,
{
    if i < bs.len() {
        if !is_leader(bs, i as int) {
            lemma_tidy_pat(cx, f, bs, i + 1, role, acc);
        } else {
            lemma_tidy_group(cx, f, bs, i as int, role, acc);
            match check_group(cx, f, bs, i as int, role, acc) {
                Err(_) => {},
                Ok(acc1) => {
                    lemma_tidy_pat(cx, f, bs, i + 1, role, acc1);
                },
            }
        }
    }
}

pub proof fn lemma_tidy_place(cx: Cx, f: Flow, l: Expr, acc: Seq<DiagnosticView>)
    requires
        tidy(acc),
    ensures
        check_place(cx, f, l, acc) matches Ok(ds) ==> tidy(ds),
{
    match l.kind {
        ExprKind::Local(var_hid) => match live_node_of(cx.ir, l.id) {
            Err(_) => {},
            Ok(ln) => match variable_of(cx.ir, var_hid) {
                Err(_) => {},
                Ok(var) => match f.successor(ln) {
                    Err(_) => {},
                    Ok(succ) => {
                        lemma_tidy_dead_assign(
                            cx,
                            f,
                            DiagnosticKind::DeadAssignment,
                            seq![Part { span: l.span, fix: Fix::Nothing }],
                            !f.reader(succ, var).valid(),
                            var,
                            acc,
                        );
                    },
                },
            },
        },
        _ => {},
    }
}

/// The third pass keeps a list of findings tidy.
pub proof fn lemma_tidy_expr(cx: Cx, f: Flow, e: Expr, acc: Seq<DiagnosticView>)
    requires
        tidy(acc),
    ensures
        check_expr(cx, f, e, acc) matches Ok(ds) ==> tidy(ds),
    decreases e, 1nat,
{
    match e.kind {
        ExprKind::Local(_) => {},
        ExprKind::Compound(es, _) => {
            lemma_tidy_exprs(cx, f, es@, 0, acc);
        },
        ExprKind::Lazy(l, r) => {
            lemma_tidy_expr(cx, f, *l, acc);
            match check_expr(cx, f, *l, acc) {
                Err(_) => {},
                Ok(acc1) => {
                    lemma_tidy_expr(cx, f, *r, acc1);
                },
            }
        },
        ExprKind::Assign(l, r) => {
            lemma_tidy_pair(cx, f, e, *l, *r, acc);
        },
        ExprKind::AssignOp(l, r) => {
            lemma_tidy_pair(cx, f, e, *l, *r, acc);
        },
        ExprKind::Let(pat, init) => {
            lemma_tidy_pat(cx, f, bindings(pat, true), 0, PatRole::Binding, acc);
            match check_pat(cx, f, bindings(pat, true), 0, PatRole::Binding, acc) {
                Err(_) => {},
                Ok(acc1) => {
                    lemma_tidy_opt(cx, f, init, acc1);
                },
            }
        },
        ExprKind::Block(es, _) => {
            lemma_tidy_exprs(cx, f, es@, 0, acc);
        },
        ExprKind::Loop(body) => {
            lemma_tidy_expr(cx, f, *body, acc);
        },
        ExprKind::Match(scrutinee, arms) => {
            lemma_tidy_expr(cx, f, *scrutinee, acc);
            match check_expr(cx, f, *scrutinee, acc) {
                Err(_) => {},
                Ok(acc1) => {
                    lemma_tidy_arms(cx, f, arms@, 0, acc1);
                },
            }
        },
        ExprKind::Ret(value) => {
            lemma_tidy_opt(cx, f, value, acc);
        },
        ExprKind::Break(_, value) => {
            lemma_tidy_opt(cx, f, value, acc);
        },
        ExprKind::Continue(_) => {},
        ExprKind::Closure(body) => {
            lemma_tidy_analysis(*body, acc);
        },
    }
}

pub proof fn lemma_tidy_pair(cx: Cx, f: Flow, e: Expr, l: Expr, r: Expr, acc: Seq<DiagnosticView>)
    requires
        e.kind == ExprKind::Assign(Box::new(l), Box::new(r)) || e.kind == ExprKind::AssignOp(
            Box::new(l),
            Box::new(r),
        ),
        tidy(acc),
    ensures
        check_expr(cx, f, e, acc) matches Ok(ds) ==> tidy(ds),
    decreases e, 0nat,
{
    lemma_tidy_place(cx, f, l, acc);
    match check_place(cx, f, l, acc) {
        Err(_) => {},
        Ok(acc1) => {
            lemma_tidy_expr(cx, f, r, acc1);
            match check_expr(cx, f, r, acc1) {
                Err(_) => {},
                Ok(acc2) => {
                    lemma_tidy_expr(cx, f, l, acc2);
                },
            }
        },
    }
}

pub proof fn lemma_tidy_opt(cx: Cx, f: Flow, o: Option<Box<Expr>>, acc: Seq<DiagnosticView>)
    requires
        tidy(acc),
    ensures
        check_opt(cx, f, o, acc) matches Ok(ds) ==> tidy(ds),
    decreases o, 0nat,
{
    match o {
        Some(e) => lemma_tidy_expr(cx, f, *e, acc),
        None => {},
    }
}

pub proof fn lemma_tidy_exprs(cx: Cx, f: Flow, es: Seq<Expr>, i: nat, acc: Seq<DiagnosticView>)
    requires
        tidy(acc),
    ensures
        check_exprs(cx, f, es, i, acc) matches Ok(ds) ==> tidy(ds),
    decreases es, es.len() - i,
{
    if i < es.len() {
        lemma_tidy_expr(cx, f, es[i as int], acc);
        match check_expr(cx, f, es[i as int], acc) {
            Err(_) => {},
            Ok(acc1) => {
                lemma_tidy_exprs(cx, f, es, i + 1, acc1);
            },
        }
    }
}

pub proof fn lemma_tidy_arm(cx: Cx, f: Flow, arm: Arm, acc: Seq<DiagnosticView>)
    requires
        tidy(acc),
    ensures
        check_arm(cx, f, arm, acc) matches Ok(ds) ==> tidy(ds),
    decreases arm, 0nat,
{
    lemma_tidy_pat(cx, f, bindings(arm.pat, true), 0, PatRole::Binding, acc);
    match check_pat(cx, f, bindings(arm.pat, true), 0, PatRole::Binding, acc) {
        Err(_) => {},
        Ok(acc1) => match arm.guard {
            Some(g) => {
                lemma_tidy_expr(cx, f, g, acc1);
                match check_expr(cx, f, g, acc1) {
                    Err(_) => {},
                    Ok(acc2) => {
                        lemma_tidy_expr(cx, f, arm.body, acc2);
                    },
                }
            },
            None => {
                lemma_tidy_expr(cx, f, arm.body, acc1);
            },
        },
    }
}

pub proof fn lemma_tidy_arms(cx: Cx, f: Flow, arms: Seq<Arm>, i: nat, acc: Seq<DiagnosticView>)
    requires
        tidy(acc),
    ensures
        check_arms(cx, f, arms, i, acc) matches Ok(ds) ==> tidy(ds),
    decreases arms, arms.len() - i,
{
    if i < arms.len() {
        lemma_tidy_arm(cx, f, arms[i as int], acc);
        match check_arm(cx, f, arms[i as int], acc) {
            Err(_) => {},
            Ok(acc1) => {
                lemma_tidy_arms(cx, f, arms, i + 1, acc1);
            },
        }
    }
}

pub proof fn lemma_tidy_upvars(
    cx: Cx,
    f: Flow,
    us: Seq<Upvar>,
    i: nat,
    entry_ln: LiveNode,
    acc: Seq<DiagnosticView>,
)
    requires
        tidy(acc),
    ensures
        check_upvars(cx, f, us, i, entry_ln, acc) matches Ok(ds) ==> tidy(ds),
    decreases us.len() - i,
{
    if i < us.len() {
        match variable_of(cx.ir, us[i as int].var) {
            Err(_) => {},
            Ok(var) => {
                let parts = seq![Part { span: us[i as int].span, fix: Fix::Nothing }];
                let dead = !(f.used(entry_ln, var) && f.reader(entry_ln, var).valid());
                lemma_tidy_dead_assign(cx, f, DiagnosticKind::UnusedCapture, parts, dead, var, acc);
                let next = if us[i as int].by_ref {
                    acc
                } else {
                    dead_assign(cx, f, DiagnosticKind::UnusedCapture, parts, dead, var, acc)
                };
                lemma_tidy_upvars(cx, f, us, i + 1, entry_ln, next);
            },
        }
    }
}

pub proof fn lemma_tidy_params(
    cx: Cx,
    f: Flow,
    ps: Seq<Pat>,
    i: nat,
    entry_ln: LiveNode,
    acc: Seq<DiagnosticView>,
)
    requires
        tidy(acc),
    ensures
        check_params(cx, f, ps, i, entry_ln, acc) matches Ok(ds) ==> tidy(ds),
    decreases ps.len() - i,
{
    if i < ps.len() {
        let bs = bindings(ps[i as int], true);
        lemma_tidy_pat(cx, f, bs, 0, PatRole::Param(entry_ln), acc);
        match check_pat(cx, f, bs, 0, PatRole::Param(entry_ln), acc) {
            Err(_) => {},
            Ok(acc1) => {
                lemma_tidy_params(cx, f, ps, i + 1, entry_ln, acc1);
            },
        }
    }
}

/// The analysis keeps a list of findings tidy.
pub proof fn lemma_tidy_analysis(body: Body, acc: Seq<DiagnosticView>)
    requires
        tidy(acc),
    ensures
        analysis(body, acc) matches Ok(ds) ==> tidy(ds),
    decreases body, 1nat,
{
    match alloc_body(body) {
        Err(_) => {},
        Ok(ir) => match start(ir) {
            Err(_) => {},
            Ok((cx, f0)) => match flow_body(cx, f0, body) {
                Err(_) => {},
                Ok((f, entry_ln)) => {
                    lemma_tidy_expr(cx, f, body.value, acc);
                    match check_expr(cx, f, body.value, acc) {
                        Err(_) => {},
                        Ok(acc1) => {
                            lemma_tidy_upvars(cx, f, body.upvars@, 0, entry_ln, acc1);
                            match check_upvars(cx, f, body.upvars@, 0, entry_ln, acc1) {
                                Err(_) => {},
                                Ok(acc2) => {
                                    lemma_tidy_params(cx, f, body.params@, 0, entry_ln, acc2);
                                },
                            }
                        },
                    }
                },
            },
        },
    }
}

} // verus!
