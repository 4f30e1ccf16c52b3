//! Which bodies the analysis owes its findings to, and that the second pass
//! goes through on them.
//!
//! A body is well formed when no id occurs twice in it, it is no larger
//! than the tables can number, every path names a variable that the body
//! declares, every `break` and `continue` names a block or loop around it,
//! and the closures in it are well formed.

use crate::flow::{
    flow_access, flow_arm, flow_arms, flow_body, flow_captures, flow_defs, flow_expr, flow_exprs,
    flow_fix, flow_opt, flow_place_components, flow_upvars, flow_write_place, param_vars,
    round_limit, round_source, round_start, vars_of, Access, Cx, Flow,
};
use crate::hir::{bindings, Arm, Binding, Body, Expr, ExprKind, Pat, Upvar};
use crate::ir_maps::{alloc_body, CaptureInfo, IrState, Violation};
use crate::numbering::{
    binding_ids, binding_ids_from, defs_in, distinct_body, node_in, numbered, numbered_arm,
    numbered_arms, numbered_exprs, numbered_opt,
};
use crate::diagnostics::{
    analysis, check_arm, check_arms, check_expr, check_exprs, check_group, check_opt, check_params,
    check_pat, check_place, check_upvars, is_leader, DiagnosticView, PatRole,
};
use crate::flow::start;
use crate::size::{fits, lemma_size_body};
use crate::numbering::{lemma_alloc_body, lemma_numbered_carry, same_at, sound};
use crate::rwu::{LiveNode, Variable};
use crate::flow::{merged_row, targets_within};
use crate::soundness::{
    lemma_access, lemma_define_all, lemma_define_binding, lemma_expr_node_not_def,
    lemma_flow_expr, lemma_init, lemma_merge, lemma_merge_unset, lemma_unset_bound, not_def,
    ready, unset_in,
};
use vstd::prelude::*;

verus! {

/// The ids of the tree locations whose live nodes the second pass
/// initialises: those of the first pass, but for the closure expressions,
/// whose captures stand for them.
pub open spec fn visit_ids(e: Expr) -> Set<u64>
    decreases e, 0nat,
{
    match e.kind {
        ExprKind::Local(_) => set![e.id],
        ExprKind::Compound(es, _) => visit_ids_upto(es@, es@.len()),
        ExprKind::Lazy(l, r) => visit_ids(*l).union(visit_ids(*r)).insert(e.id),
        ExprKind::Assign(l, r) => visit_ids(*l).union(visit_ids(*r)),
        ExprKind::AssignOp(l, r) => visit_ids(*l).union(visit_ids(*r)),
        ExprKind::Let(pat, init) => binding_ids(bindings(pat, true)).union(visit_ids_opt(init)),
        ExprKind::Block(es, _) => visit_ids_upto(es@, es@.len()),
        ExprKind::Loop(body) => visit_ids(*body).insert(e.id),
        ExprKind::Match(scrutinee, arms) => visit_ids(*scrutinee).union(
            visit_ids_arms(arms@, 0),
        ).insert(e.id),
        ExprKind::Ret(value) => visit_ids_opt(value),
        ExprKind::Break(_, value) => visit_ids_opt(value),
        ExprKind::Continue(_) => Set::empty(),
        ExprKind::Closure(_) => Set::empty(),
    }
}

pub open spec fn visit_ids_opt(o: Option<Box<Expr>>) -> Set<u64>
    decreases o, 0nat,
{
    match o {
        Some(e) => visit_ids(*e),
        None => Set::empty(),
    }
}

/// The ids visited in `es[..n]`.
pub open spec fn visit_ids_upto(es: Seq<Expr>, n: nat) -> Set<u64>
    decreases es, n,
{
    if n == 0 || n > es.len() {
        Set::empty()
    } else {
        visit_ids_upto(es, (n - 1) as nat).union(visit_ids(es[n - 1]))
    }
}

pub open spec fn visit_ids_arm(arm: Arm) -> Set<u64>
    decreases arm, 0nat,
{
    binding_ids(bindings(arm.pat, true)).union(
        match arm.guard {
            Some(g) => visit_ids(g),
            None => Set::empty(),
        },
    ).union(visit_ids(arm.body))
}

/// The ids visited in `arms[i..]`.
pub open spec fn visit_ids_arms(arms: Seq<Arm>, i: nat) -> Set<u64>
    decreases arms, arms.len() - i,
{
    if i >= arms.len() {
        Set::empty()
    } else {
        visit_ids_arm(arms[i as int]).union(visit_ids_arms(arms, i + 1))
    }
}

/// Every path in the expression names a variable in `d`, every `break`
/// names a block or loop in `b`, every `continue` a loop in `c`, no block
/// or loop in it goes by an id in `b` or `c`, and every closure in it is
/// well formed and captures variables in `d`.
pub open spec fn resolved(d: Set<u64>, e: Expr, b: Set<u64>, c: Set<u64>) -> bool
    decreases e, 0nat,
{
    match e.kind {
        ExprKind::Local(var) => d.contains(var),
        ExprKind::Compound(es, _) => resolved_exprs(d, es@, b, c),
        ExprKind::Lazy(l, r) => resolved(d, *l, b, c) && resolved(d, *r, b, c),
        ExprKind::Assign(l, r) => resolved(d, *l, b, c) && resolved(d, *r, b, c),
        ExprKind::AssignOp(l, r) => resolved(d, *l, b, c) && resolved(d, *r, b, c),
        ExprKind::Let(_, init) => resolved_opt(d, init, b, c),
        ExprKind::Block(es, targeted) => if targeted {
            !b.contains(e.id) && resolved_exprs(d, es@, b.insert(e.id), c)
        } else {
            resolved_exprs(d, es@, b, c)
        },
        ExprKind::Loop(body) => !b.contains(e.id) && !c.contains(e.id) && resolved(
            d,
            *body,
            b.insert(e.id),
            c.insert(e.id),
        ),
        ExprKind::Match(scrutinee, arms) => resolved(d, *scrutinee, b, c) && resolved_arms(
            d,
            arms@,
            b,
            c,
        ),
        ExprKind::Ret(value) => resolved_opt(d, value, b, c),
        ExprKind::Break(target, value) => {
            &&& target matches Some(id) && b.contains(id)
            &&& resolved_opt(d, value, b, c)
        },
        ExprKind::Continue(target) => target matches Some(id) && c.contains(id),
        ExprKind::Closure(body) => {
            &&& forall|i: int|
                0 <= i < body.upvars@.len() ==> d.contains((#[trigger] body.upvars@[i]).var)
            &&& well_formed(*body)
        },
    }
}

pub open spec fn resolved_opt(d: Set<u64>, o: Option<Box<Expr>>, b: Set<u64>, c: Set<u64>) -> bool
    decreases o, 0nat,
{
    match o {
        Some(e) => resolved(d, *e, b, c),
        None => true,
    }
}

pub open spec fn resolved_exprs(d: Set<u64>, es: Seq<Expr>, b: Set<u64>, c: Set<u64>) -> bool
    decreases es, 1nat,
{
    forall|i: int| 0 <= i < es.len() ==> resolved(d, #[trigger] es[i], b, c)
}

pub open spec fn resolved_arm(d: Set<u64>, arm: Arm, b: Set<u64>, c: Set<u64>) -> bool
    decreases arm, 0nat,
{
    &&& resolved(d, arm.body, b, c)
    &&& match arm.guard {
        Some(g) => resolved(d, g, b, c),
        None => true,
    }
}

pub open spec fn resolved_arms(d: Set<u64>, arms: Seq<Arm>, b: Set<u64>, c: Set<u64>) -> bool
    decreases arms, 1nat,
{
    forall|i: int| 0 <= i < arms.len() ==> resolved_arm(d, #[trigger] arms[i], b, c)
}

/// The variables that a body declares: those that the first pass numbers.
pub open spec fn declared(body: Body) -> Set<u64> {
    match alloc_body(body) {
        Ok(ir) => ir.vars.dom(),
        Err(_) => Set::empty(),
    }
}

/// No id occurs twice in the body, the body is no larger than the tables
/// can number, every path names a variable that the body declares, every
/// `break` and `continue` names a block or loop around it, and the
/// closures in the body are well formed.
pub open spec fn well_formed(body: Body) -> bool
    decreases body, 1nat,
{
    &&& distinct_body(body)
    &&& fits(body)
    &&& resolved(declared(body), body.value, Set::empty(), Set::empty())
}

/// The entry node of an expression: what the second pass gives for it, as
/// a function of the tree, the node after it and the targets around it.
pub open spec fn entry(
    cx: Cx,
    e: Expr,
    succ: LiveNode,
    bm: Map<u64, LiveNode>,
    cm: Map<u64, LiveNode>,
) -> LiveNode
    decreases e, 0nat,
{
    match e.kind {
        ExprKind::Local(_) => cx.ir.live[e.id],
        ExprKind::Compound(es, diverges) => entry_exprs(
            cx,
            es@,
            es@.len(),
            if diverges {
                cx.s.exit_ln
            } else {
                succ
            },
            bm,
            cm,
        ),
        ExprKind::Lazy(l, _) => entry(cx, *l, cx.ir.live[e.id], bm, cm),
        ExprKind::Assign(l, r) => entry(
            cx,
            *r,
            entry_place(cx, *l, entry_write(cx, *l, succ), bm, cm),
            bm,
            cm,
        ),
        ExprKind::AssignOp(l, r) => entry_place(
            cx,
            *l,
            entry(cx, *r, entry_write(cx, *l, succ), bm, cm),
            bm,
            cm,
        ),
        ExprKind::Let(pat, init) => entry_defs(
            cx,
            bindings(pat, true),
            0,
            entry_opt(cx, init, succ, bm, cm),
        ),
        ExprKind::Block(es, targeted) => entry_exprs(
            cx,
            es@,
            es@.len(),
            succ,
            if targeted {
                bm.insert(e.id, succ)
            } else {
                bm
            },
            cm,
        ),
        ExprKind::Loop(_) => cx.ir.live[e.id],
        ExprKind::Match(scrutinee, _) => entry(cx, *scrutinee, cx.ir.live[e.id], bm, cm),
        ExprKind::Ret(value) => entry_opt(cx, value, cx.s.exit_ln, bm, cm),
        ExprKind::Break(target, value) => entry_opt(cx, value, bm[target->Some_0], bm, cm),
        ExprKind::Continue(target) => cm[target->Some_0],
        ExprKind::Closure(_) => entry_caps(cx.ir.caps[e.id], cx.ir.caps[e.id].len(), succ),
    }
}

pub open spec fn entry_opt(
    cx: Cx,
    o: Option<Box<Expr>>,
    succ: LiveNode,
    bm: Map<u64, LiveNode>,
    cm: Map<u64, LiveNode>,
) -> LiveNode
    decreases o, 0nat,
{
    match o {
        Some(e) => entry(cx, *e, succ, bm, cm),
        None => succ,
    }
}

pub open spec fn entry_write(cx: Cx, l: Expr, succ: LiveNode) -> LiveNode {
    match l.kind {
        ExprKind::Local(_) => cx.ir.live[l.id],
        _ => succ,
    }
}

pub open spec fn entry_place(
    cx: Cx,
    l: Expr,
    succ: LiveNode,
    bm: Map<u64, LiveNode>,
    cm: Map<u64, LiveNode>,
) -> LiveNode
    decreases l, 1nat,
{
    match l.kind {
        ExprKind::Local(_) => succ,
        _ => entry(cx, l, succ, bm, cm),
    }
}

pub open spec fn entry_exprs(
    cx: Cx,
    es: Seq<Expr>,
    n: nat,
    succ: LiveNode,
    bm: Map<u64, LiveNode>,
    cm: Map<u64, LiveNode>,
) -> LiveNode
    decreases es, n,
{
    if n == 0 || n > es.len() {
        succ
    } else {
        entry_exprs(cx, es, (n - 1) as nat, entry(cx, es[n - 1], succ, bm, cm), bm, cm)
    }
}

pub open spec fn entry_defs(cx: Cx, bs: Seq<Binding>, i: nat, succ: LiveNode) -> LiveNode
    decreases bs.len() - i,
{
    if i >= bs.len() {
        succ
    } else if !bs[i as int].first {
        entry_defs(cx, bs, i + 1, succ)
    } else {
        entry_defs(cx, bs, i + 1, cx.ir.live[bs[i as int].id])
    }
}

pub open spec fn entry_caps(cs: Seq<CaptureInfo>, n: nat, succ: LiveNode) -> LiveNode
    decreases n,
{
    if n == 0 || n > cs.len() {
        succ
    } else {
        entry_caps(cs, (n - 1) as nat, cs[n - 1].ln)
    }
}

/// The two maps have the same target under every key in `keys`.
pub open spec fn covers(m1: Map<u64, LiveNode>, m2: Map<u64, LiveNode>, keys: Set<u64>) -> bool {
    forall|k: u64|
        #![trigger m1.contains_key(k)]
        #![trigger m2.contains_key(k)]
        keys.contains(k) ==> m1.contains_key(k) && m2.contains_key(k) && m1[k] == m2[k]
}

/// The entry node depends on the targets around the expression only.
pub proof fn lemma_entry_same(
    cx: Cx,
    e: Expr,
    succ: LiveNode,
    bm1: Map<u64, LiveNode>,
    cm1: Map<u64, LiveNode>,
    bm2: Map<u64, LiveNode>,
    cm2: Map<u64, LiveNode>,
    d: Set<u64>,
    b: Set<u64>,
    c: Set<u64>,
)
    requires
        resolved(d, e, b, c),
        covers(bm1, bm2, b),
        covers(cm1, cm2, c),
    ensures
        entry(cx, e, succ, bm1, cm1) == entry(cx, e, succ, bm2, cm2),
    decreases e, 0nat,
{
    match e.kind {
        ExprKind::Local(_) => {},
        ExprKind::Compound(es, diverges) => {
            let s = if diverges {
                cx.s.exit_ln
            } else {
                succ
            };
            lemma_entry_same_exprs(cx, es@, es@.len(), s, bm1, cm1, bm2, cm2, d, b, c);
        },
        ExprKind::Lazy(l, _) => {
            lemma_entry_same(cx, *l, cx.ir.live[e.id], bm1, cm1, bm2, cm2, d, b, c);
        },
        ExprKind::Assign(l, r) => {
            let s1 = entry_write(cx, *l, succ);
            lemma_entry_same_place(cx, *l, s1, bm1, cm1, bm2, cm2, d, b, c);
            lemma_entry_same(cx, *r, entry_place(cx, *l, s1, bm1, cm1), bm1, cm1, bm2, cm2, d, b, c);
        },
        ExprKind::AssignOp(l, r) => {
            let s1 = entry_write(cx, *l, succ);
            lemma_entry_same(cx, *r, s1, bm1, cm1, bm2, cm2, d, b, c);
            lemma_entry_same_place(cx, *l, entry(cx, *r, s1, bm1, cm1), bm1, cm1, bm2, cm2, d, b, c);
        },
        ExprKind::Let(_, init) => {
            lemma_entry_same_opt(cx, init, succ, bm1, cm1, bm2, cm2, d, b, c);
        },
        ExprKind::Block(es, targeted) => {
            if targeted {
                lemma_entry_same_exprs(
                    cx,
                    es@,
                    es@.len(),
                    succ,
                    bm1.insert(e.id, succ),
                    cm1,
                    bm2.insert(e.id, succ),
                    cm2,
                    d,
                    b.insert(e.id),
                    c,
                );
            } else {
                lemma_entry_same_exprs(cx, es@, es@.len(), succ, bm1, cm1, bm2, cm2, d, b, c);
            }
        },
        ExprKind::Loop(_) => {},
        ExprKind::Match(scrutinee, _) => {
            lemma_entry_same(cx, *scrutinee, cx.ir.live[e.id], bm1, cm1, bm2, cm2, d, b, c);
        },
        ExprKind::Ret(value) => {
            lemma_entry_same_opt(cx, value, cx.s.exit_ln, bm1, cm1, bm2, cm2, d, b, c);
        },
        ExprKind::Break(target, value) => {
            let id = target->Some_0;
            assert(bm1.contains_key(id));
            lemma_entry_same_opt(cx, value, bm1[id], bm1, cm1, bm2, cm2, d, b, c);
        },
        ExprKind::Continue(target) => {
            assert(cm1.contains_key(target->Some_0));
        },
        ExprKind::Closure(_) => {},
    }
}

pub proof fn lemma_entry_same_opt(
    cx: Cx,
    o: Option<Box<Expr>>,
    succ: LiveNode,
    bm1: Map<u64, LiveNode>,
    cm1: Map<u64, LiveNode>,
    bm2: Map<u64, LiveNode>,
    cm2: Map<u64, LiveNode>,
    d: Set<u64>,
    b: Set<u64>,
    c: Set<u64>,
)
    requires
        resolved_opt(d, o, b, c),
        covers(bm1, bm2, b),
        covers(cm1, cm2, c),
    ensures
        entry_opt(cx, o, succ, bm1, cm1) == entry_opt(cx, o, succ, bm2, cm2),
    decreases o, 0nat,
{
    match o {
        Some(e) => lemma_entry_same(cx, *e, succ, bm1, cm1, bm2, cm2, d, b, c),
        None => {},
    }
}

pub proof fn lemma_entry_same_place(
    cx: Cx,
    l: Expr,
    succ: LiveNode,
    bm1: Map<u64, LiveNode>,
    cm1: Map<u64, LiveNode>,
    bm2: Map<u64, LiveNode>,
    cm2: Map<u64, LiveNode>,
    d: Set<u64>,
    b: Set<u64>,
    c: Set<u64>,
)
    requires
        resolved(d, l, b, c),
        covers(bm1, bm2, b),
        covers(cm1, cm2, c),
    ensures
        entry_place(cx, l, succ, bm1, cm1) == entry_place(cx, l, succ, bm2, cm2),
    decreases l, 1nat,
{
    match l.kind {
        ExprKind::Local(_) => {},
        _ => lemma_entry_same(cx, l, succ, bm1, cm1, bm2, cm2, d, b, c),
    }
}

pub proof fn lemma_entry_same_exprs(
    cx: Cx,
    es: Seq<Expr>,
    n: nat,
    succ: LiveNode,
    bm1: Map<u64, LiveNode>,
    cm1: Map<u64, LiveNode>,
    bm2: Map<u64, LiveNode>,
    cm2: Map<u64, LiveNode>,
    d: Set<u64>,
    b: Set<u64>,
    c: Set<u64>,
)
    requires
        resolved_exprs(d, es, b, c),
        covers(bm1, bm2, b),
        covers(cm1, cm2, c),
    ensures
        entry_exprs(cx, es, n, succ, bm1, cm1) == entry_exprs(cx, es, n, succ, bm2, cm2),
    decreases es, n,
{
    if n == 0 || n > es.len() {
    } else {
        assert(resolved(d, es[n - 1], b, c));
        lemma_entry_same(cx, es[n - 1], succ, bm1, cm1, bm2, cm2, d, b, c);
        lemma_entry_same_exprs(
            cx,
            es,
            (n - 1) as nat,
            entry(cx, es[n - 1], succ, bm1, cm1),
            bm1,
            cm1,
            bm2,
            cm2,
            d,
            b,
            c,
        );
    }
}

/// `x` is the exit node or a node whose successor is set.
pub open spec fn good(cx: Cx, f: Flow, x: LiveNode) -> bool {
    x == cx.s.exit_ln || (x.0 < cx.ir.lnks.len() && f.successors[x.0 as int].0
        < cx.ir.lnks.len())
}

/// The successor of the node of tree location `id` is set.
pub open spec fn link_ok(cx: Cx, f: Flow, id: u64) -> bool {
    &&& cx.ir.live[id].0 < cx.ir.lnks.len()
    &&& f.successors[cx.ir.live[id].0 as int].0 < cx.ir.lnks.len()
}

/// The successor of the node of every tree location in `ids` is set.
pub open spec fn all_linked(cx: Cx, f: Flow, ids: Set<u64>) -> bool {
    forall|id: u64| ids.contains(id) ==> #[trigger] link_ok(cx, f, id)
}

/// A successor that is set in `f` is set in `g`.
pub open spec fn succs_kept(cx: Cx, f: Flow, g: Flow) -> bool {
    forall|m: int|
        0 <= m < cx.ir.lnks.len() && f.successors[m].0 < cx.ir.lnks.len() ==> (
        #[trigger] g.successors[m]).0 < cx.ir.lnks.len()
}

/// Every block or loop in `b` has a target for `break`, every loop in `c`
/// one for `continue`, and the targets are the exit or have a successor.
pub open spec fn scope_ok(cx: Cx, f: Flow, b: Set<u64>, c: Set<u64>) -> bool {
    &&& forall|k: u64| #[trigger]
        b.contains(k) ==> f.break_ln.contains_key(k) && good(cx, f, f.break_ln[k])
    &&& forall|k: u64| #[trigger]
        c.contains(k) ==> f.cont_ln.contains_key(k) && good(cx, f, f.cont_ln[k])
}

/// Every id in `d` has a variable.
pub open spec fn declared_in(cx: Cx, d: Set<u64>) -> bool {
    forall|id: u64| #[trigger] d.contains(id) ==> cx.ir.vars.contains_key(id)
}

/// From `f` to `g` the state stayed fit, the targets in scope stayed where
/// they were and no successor was unset.
pub open spec fn moved(cx: Cx, f: Flow, g: Flow, b: Set<u64>, c: Set<u64>) -> bool {
    &&& ready(cx, g)
    &&& covers(f.break_ln, g.break_ln, b)
    &&& covers(f.cont_ln, g.cont_ln, c)
    &&& succs_kept(cx, f, g)
}

/// The step succeeded and gave the node `at`, after visiting `visited`.
pub open spec fn total(
    cx: Cx,
    f: Flow,
    r: Result<(Flow, LiveNode), Violation>,
    at: LiveNode,
    b: Set<u64>,
    c: Set<u64>,
    visited: Set<u64>,
) -> bool {
    match r {
        Ok((g, ln)) => {
            &&& ln == at
            &&& ln.0 < cx.ir.lnks.len()
            &&& moved(cx, f, g, b, c)
            &&& all_linked(cx, g, visited)
            &&& good(cx, g, ln)
        },
        Err(_) => false,
    }
}

/// What the walk needs before a step.
pub open spec fn set_up(cx: Cx, f: Flow, succ: LiveNode, d: Set<u64>, b: Set<u64>, c: Set<u64>) -> bool {
    &&& ready(cx, f)
    &&& succ.0 < cx.ir.lnks.len()
    &&& good(cx, f, succ)
    &&& declared_in(cx, d)
    &&& scope_ok(cx, f, b, c)
}

pub proof fn lemma_moved_twice(cx: Cx, f: Flow, g: Flow, h: Flow, b: Set<u64>, c: Set<u64>)
    requires
        ready(cx, f),
        moved(cx, f, g, b, c),
        moved(cx, g, h, b, c),
    ensures
        moved(cx, f, h, b, c),
{
    assert forall|m: int|
        0 <= m < cx.ir.lnks.len() && f.successors[m].0 < cx.ir.lnks.len() implies (
    #[trigger] h.successors[m]).0 < cx.ir.lnks.len() by {
        assert(g.successors[m].0 < cx.ir.lnks.len());
    }
    assert forall|k: u64| b.contains(k) implies f.break_ln.contains_key(k)
        && h.break_ln.contains_key(k) && f.break_ln[k] == h.break_ln[k] by {
        assert(g.break_ln.contains_key(k));
    }
    assert forall|k: u64| c.contains(k) implies f.cont_ln.contains_key(k)
        && h.cont_ln.contains_key(k) && f.cont_ln[k] == h.cont_ln[k] by {
        assert(g.cont_ln.contains_key(k));
    }
}

/// What held of `f` holds of `g` after a move.
pub proof fn lemma_after_move(
    cx: Cx,
    f: Flow,
    g: Flow,
    succ: LiveNode,
    d: Set<u64>,
    b: Set<u64>,
    c: Set<u64>,
    ids: Set<u64>,
)
    requires
        ready(cx, f),
        moved(cx, f, g, b, c),
        scope_ok(cx, f, b, c),
    ensures
        scope_ok(cx, g, b, c),
        good(cx, f, succ) ==> good(cx, g, succ),
        all_linked(cx, f, ids) ==> all_linked(cx, g, ids),
{
    assert forall|k: u64| #[trigger] b.contains(k) implies g.break_ln.contains_key(k) && good(
        cx,
        g,
        g.break_ln[k],
    ) by {
        assert(f.break_ln.contains_key(k));
        assert(good(cx, f, f.break_ln[k]));
        assert(g.break_ln[k] == f.break_ln[k]);
    }
    assert forall|k: u64| #[trigger] c.contains(k) implies g.cont_ln.contains_key(k) && good(
        cx,
        g,
        g.cont_ln[k],
    ) by {
        assert(f.cont_ln.contains_key(k));
        assert(good(cx, f, f.cont_ln[k]));
        assert(g.cont_ln[k] == f.cont_ln[k]);
    }
    if all_linked(cx, f, ids) {
        assert forall|id: u64| ids.contains(id) implies #[trigger] link_ok(cx, g, id) by {
            assert(link_ok(cx, f, id));
        }
    }
}

/// A second step after a first one that succeeded.
pub proof fn lemma_total_then(
    cx: Cx,
    f: Flow,
    g: Flow,
    r: Result<(Flow, LiveNode), Violation>,
    at: LiveNode,
    b: Set<u64>,
    c: Set<u64>,
    first: Set<u64>,
    second: Set<u64>,
)
    requires
        ready(cx, f),
        scope_ok(cx, f, b, c),
        moved(cx, f, g, b, c),
        all_linked(cx, g, first),
        total(cx, g, r, at, b, c, second),
    ensures
        total(cx, f, r, at, b, c, first.union(second)),
{
    match r {
        Ok((h, _)) => {
            lemma_moved_twice(cx, f, g, h, b, c);
            lemma_after_move(cx, f, g, at, Set::empty(), b, c, first);
            lemma_after_move(cx, g, h, at, Set::empty(), b, c, first);
            assert forall|id: u64| first.union(second).contains(id) implies #[trigger] link_ok(
                cx,
                h,
                id,
            ) by {
                if first.contains(id) {
                    assert(link_ok(cx, h, id));
                } else {
                    assert(second.contains(id));
                }
            }
        },
        Err(_) => {},
    }
}

pub proof fn lemma_total_access(
    cx: Cx,
    f: Flow,
    id: u64,
    var_hid: u64,
    succ: LiveNode,
    acc: Access,
    lo: nat,
    hi: nat,
    d: Set<u64>,
    b: Set<u64>,
    c: Set<u64>,
)
    requires
        set_up(cx, f, succ, d, b, c),
        node_in(cx.ir, id, lo, hi),
        d.contains(var_hid),
    ensures
        total(cx, f, flow_access(cx, f, id, var_hid, succ, acc), cx.ir.live[id], b, c, set![id]),
{
    let ln = cx.ir.live[id];
    let var = cx.ir.vars[var_hid];
    lemma_expr_node_not_def(cx.ir, id);
    lemma_access(cx, f, ln, succ, var, acc);
    let g = f.init_from_succ(ln, succ).acc(ln, var, acc);
    assert(g.successors == f.successors.update(ln.0 as int, succ));
    assert(link_ok(cx, g, id));
}

pub proof fn lemma_total_defs(
    cx: Cx,
    f: Flow,
    bs: Seq<Binding>,
    i: nat,
    succ: LiveNode,
    lo: nat,
    hi: nat,
    d: Set<u64>,
    b: Set<u64>,
    c: Set<u64>,
)
    requires
        set_up(cx, f, succ, d, b, c),
        defs_in(cx.ir, bs, lo, hi),
    ensures
        total(
            cx,
            f,
            flow_defs(cx, f, bs, i, succ),
            entry_defs(cx, bs, i, succ),
            b,
            c,
            binding_ids_from(bs, i as int),
        ),
    decreases bs.len() - i,
{
    if i >= bs.len() {
    } else if !bs[i as int].first {
        lemma_total_defs(cx, f, bs, i + 1, succ, lo, hi, d, b, c);
        assert(binding_ids_from(bs, i as int) =~= binding_ids_from(bs, i as int + 1)) by {
            assert forall|id: u64| binding_ids_from(bs, i as int).contains(id) implies binding_ids_from(
                bs,
                i as int + 1,
            ).contains(id) by {
                let k = choose|k: int| i <= k < bs.len() && bs[k].first && #[trigger] bs[k].id == id;
                assert(i + 1 <= k < bs.len() && bs[k].first && bs[k].id == id);
            }
            assert forall|id: u64| binding_ids_from(bs, i as int + 1).contains(
                id,
            ) implies binding_ids_from(bs, i as int).contains(id) by {
                let k = choose|k: int|
                    i + 1 <= k < bs.len() && bs[k].first && #[trigger] bs[k].id == id;
                assert(i <= k < bs.len() && bs[k].first && bs[k].id == id);
            }
        }
    } else {
        let id = bs[i as int].id;
        let ln = cx.ir.live[id];
        let var = cx.ir.vars[id];
        lemma_define_binding(cx, f, id, succ);
        let g = f.init_from_succ(ln, succ).define(ln, var);
        assert(g.successors == f.successors.update(ln.0 as int, succ));
        assert(moved(cx, f, g, b, c));
        lemma_after_move(cx, f, g, succ, d, b, c, Set::empty());
        assert(good(cx, g, ln));
        lemma_total_defs(cx, g, bs, i + 1, ln, lo, hi, d, b, c);
        assert(link_ok(cx, g, id));
        assert(all_linked(cx, g, set![id]));
        lemma_total_then(
            cx,
            f,
            g,
            flow_defs(cx, g, bs, i + 1, ln),
            entry_defs(cx, bs, i + 1, ln),
            b,
            c,
            set![id],
            binding_ids_from(bs, i as int + 1),
        );
        assert(binding_ids_from(bs, i as int) =~= set![id].union(
            binding_ids_from(bs, i as int + 1),
        )) by {
            assert forall|x: u64| binding_ids_from(bs, i as int).contains(x) implies set![
                id,
            ].union(binding_ids_from(bs, i as int + 1)).contains(x) by {
                let k = choose|k: int| i <= k < bs.len() && bs[k].first && #[trigger] bs[k].id == x;
                if k > i {
                    assert(i + 1 <= k < bs.len() && bs[k].first && bs[k].id == x);
                }
            }
            assert forall|x: u64|
                set![id].union(binding_ids_from(bs, i as int + 1)).contains(
                    x,
                ) implies binding_ids_from(bs, i as int).contains(x) by {
                if x == id {
                    assert(i <= i < bs.len() && bs[i as int].first && bs[i as int].id == x);
                } else {
                    let k = choose|k: int|
                        i + 1 <= k < bs.len() && bs[k].first && #[trigger] bs[k].id == x;
                    assert(i <= k < bs.len() && bs[k].first && bs[k].id == x);
                }
            }
        }
    }
}

pub proof fn lemma_total_captures(
    cx: Cx,
    f: Flow,
    cs: Seq<CaptureInfo>,
    n: nat,
    succ: LiveNode,
    d: Set<u64>,
    b: Set<u64>,
    c: Set<u64>,
)
    requires
        set_up(cx, f, succ, d, b, c),
        n <= cs.len(),
        forall|i: int| 0 <= i < cs.len() ==> (#[trigger] cs[i]).ln.0 < cx.ir.lnks.len(),
        forall|i: int| 0 <= i < cs.len() ==> not_def(cx.ir, (#[trigger] cs[i]).ln),
        forall|i: int| 0 <= i < cs.len() ==> d.contains((#[trigger] cs[i]).var_hid),
    ensures
        total(cx, f, flow_captures(cx, f, cs, n, succ), entry_caps(cs, n, succ), b, c, Set::empty()),
    decreases n,
{
    if n > 0 {
        let cap = cs[n - 1];
        assert(d.contains(cap.var_hid));
        let var = cx.ir.vars[cap.var_hid];
        lemma_access(cx, f, cap.ln, succ, var, Access::ReadUse);
        let g = f.init_from_succ(cap.ln, succ).acc(cap.ln, var, Access::ReadUse);
        assert(g.successors == f.successors.update(cap.ln.0 as int, succ));
        assert(moved(cx, f, g, b, c));
        lemma_after_move(cx, f, g, succ, d, b, c, Set::empty());
        lemma_total_captures(cx, g, cs, (n - 1) as nat, cap.ln, d, b, c);
        lemma_total_then(
            cx,
            f,
            g,
            flow_captures(cx, g, cs, (n - 1) as nat, cap.ln),
            entry_caps(cs, (n - 1) as nat, cap.ln),
            b,
            c,
            Set::empty(),
            Set::empty(),
        );
        assert(Set::<u64>::empty().union(Set::empty()) =~= Set::empty());
    }
}

/// What a step that gives no node leaves: it succeeded and visited
/// `visited`.
pub open spec fn total_flow(
    cx: Cx,
    f: Flow,
    r: Result<Flow, Violation>,
    b: Set<u64>,
    c: Set<u64>,
    visited: Set<u64>,
) -> bool {
    match r {
        Ok(g) => moved(cx, f, g, b, c) && all_linked(cx, g, visited),
        Err(_) => false,
    }
}

/// A change that touches neither targets nor successors is a move.
pub proof fn lemma_moved_rows(cx: Cx, f: Flow, g: Flow, b: Set<u64>, c: Set<u64>)
    requires
        ready(cx, f),
        ready(cx, g),
        scope_ok(cx, f, b, c),
        g.break_ln == f.break_ln,
        g.cont_ln == f.cont_ln,
        g.successors == f.successors,
    ensures
        moved(cx, f, g, b, c),
{
}

/// On a well-formed, soundly numbered expression the walk succeeds: every
/// lookup finds what it looks for, every fixed point is reached, and the
/// entry node is the one that the tree prescribes.
pub proof fn lemma_flow_total(
    cx: Cx,
    f: Flow,
    e: Expr,
    succ: LiveNode,
    lo: nat,
    hi: nat,
    d: Set<u64>,
    b: Set<u64>,
    c: Set<u64>,
)
    requires
        set_up(cx, f, succ, d, b, c),
        numbered(cx.ir, e, lo, hi),
        resolved(d, e, b, c),
    ensures
        total(
            cx,
            f,
            flow_expr(cx, f, e, succ),
            entry(cx, e, succ, f.break_ln, f.cont_ln),
            b,
            c,
            visit_ids(e),
        ),
    decreases e, 0nat,
{
    let n = cx.ir.lnks.len();
    match e.kind {
        ExprKind::Local(var) => {
            lemma_total_access(cx, f, e.id, var, succ, Access::ReadUse, lo, hi, d, b, c);
        },
        ExprKind::Compound(es, diverges) => {
            let s = if diverges {
                cx.s.exit_ln
            } else {
                succ
            };
            lemma_flow_total_exprs(cx, f, es@, es@.len(), s, lo, hi, d, b, c);
        },
        ExprKind::Lazy(l, r) => {
            lemma_flow_total(cx, f, *r, succ, lo, hi, d, b, c);
            match flow_expr(cx, f, *r, succ) {
                Err(_) => {},
                Ok((f1, r_succ)) => {
                    let ln = cx.ir.live[e.id];
                    lemma_expr_node_not_def(cx.ir, e.id);
                    lemma_init(cx, f1, ln, succ);
                    let f2 = f1.init_from_succ(ln, succ);
                    lemma_merge(cx, f2, ln, r_succ);
                    let f3 = f2.merge_from_succ(ln, r_succ);
                    assert(f3.successors == f1.successors.update(ln.0 as int, succ));
                    lemma_after_move(cx, f, f1, succ, d, b, c, Set::empty());
                    assert(moved(cx, f1, f3, b, c));
                    lemma_moved_twice(cx, f, f1, f3, b, c);
                    lemma_after_move(cx, f1, f3, succ, d, b, c, visit_ids(*r));
                    assert(good(cx, f3, ln));
                    lemma_flow_total(cx, f3, *l, ln, lo, hi, d, b, c);
                    lemma_entry_same(
                        cx,
                        *l,
                        ln,
                        f3.break_ln,
                        f3.cont_ln,
                        f.break_ln,
                        f.cont_ln,
                        d,
                        b,
                        c,
                    );
                    assert(link_ok(cx, f3, e.id));
                    assert(all_linked(cx, f3, visit_ids(*r).insert(e.id)));
                    lemma_total_then(
                        cx,
                        f,
                        f3,
                        flow_expr(cx, f3, *l, ln),
                        entry(cx, e, succ, f.break_ln, f.cont_ln),
                        b,
                        c,
                        visit_ids(*r).insert(e.id),
                        visit_ids(*l),
                    );
                    assert(visit_ids(*r).insert(e.id).union(visit_ids(*l)) =~= visit_ids(e));
                },
            }
        },
        ExprKind::Assign(l, r) => {
            lemma_total_write_place(cx, f, *l, succ, Access::Write, lo, hi, d, b, c);
            match flow_write_place(cx, f, *l, succ, Access::Write) {
                Err(_) => {},
                Ok((f1, s1)) => {
                    lemma_after_move(cx, f, f1, succ, d, b, c, Set::empty());
                    lemma_total_place(cx, f1, *l, s1, lo, hi, d, b, c);
                    lemma_entry_same_place(
                        cx,
                        *l,
                        s1,
                        f1.break_ln,
                        f1.cont_ln,
                        f.break_ln,
                        f.cont_ln,
                        d,
                        b,
                        c,
                    );
                    match flow_place_components(cx, f1, *l, s1) {
                        Err(_) => {},
                        Ok((f2, s2)) => {
                            lemma_after_move(cx, f1, f2, succ, d, b, c, written_ids(*l));
                            lemma_moved_twice(cx, f, f1, f2, b, c);
                            assert(all_linked(cx, f2, visit_ids(*l))) by {
                                assert forall|id: u64| visit_ids(*l).contains(
                                    id,
                                ) implies #[trigger] link_ok(cx, f2, id) by {
                                    if written_ids(*l).contains(id) {
                                    } else {
                                        assert(place_ids(*l).contains(id));
                                    }
                                }
                            }
                            lemma_flow_total(cx, f2, *r, s2, lo, hi, d, b, c);
                            lemma_entry_same(
                                cx,
                                *r,
                                s2,
                                f2.break_ln,
                                f2.cont_ln,
                                f.break_ln,
                                f.cont_ln,
                                d,
                                b,
                                c,
                            );
                            lemma_total_then(
                                cx,
                                f,
                                f2,
                                flow_expr(cx, f2, *r, s2),
                                entry(cx, e, succ, f.break_ln, f.cont_ln),
                                b,
                                c,
                                visit_ids(*l),
                                visit_ids(*r),
                            );
                        },
                    }
                },
            }
        },
        ExprKind::AssignOp(l, r) => {
            lemma_total_write_place(cx, f, *l, succ, Access::ReadWrite, lo, hi, d, b, c);
            match flow_write_place(cx, f, *l, succ, Access::ReadWrite) {
                Err(_) => {},
                Ok((f1, s1)) => {
                    lemma_after_move(cx, f, f1, succ, d, b, c, Set::empty());
                    lemma_flow_total(cx, f1, *r, s1, lo, hi, d, b, c);
                    lemma_entry_same(
                        cx,
                        *r,
                        s1,
                        f1.break_ln,
                        f1.cont_ln,
                        f.break_ln,
                        f.cont_ln,
                        d,
                        b,
                        c,
                    );
                    match flow_expr(cx, f1, *r, s1) {
                        Err(_) => {},
                        Ok((f2, s2)) => {
                            lemma_after_move(cx, f1, f2, succ, d, b, c, written_ids(*l));
                            lemma_moved_twice(cx, f, f1, f2, b, c);
                            lemma_total_place(cx, f2, *l, s2, lo, hi, d, b, c);
                            lemma_entry_same_place(
                                cx,
                                *l,
                                s2,
                                f2.break_ln,
                                f2.cont_ln,
                                f.break_ln,
                                f.cont_ln,
                                d,
                                b,
                                c,
                            );
                            lemma_total_then(
                                cx,
                                f,
                                f2,
                                flow_place_components(cx, f2, *l, s2),
                                entry(cx, e, succ, f.break_ln, f.cont_ln),
                                b,
                                c,
                                written_ids(*l).union(visit_ids(*r)),
                                place_ids(*l),
                            );
                            assert(written_ids(*l).union(place_ids(*l)) =~= visit_ids(*l));
                            assert(written_ids(*l).union(visit_ids(*r)).union(place_ids(*l))
                                =~= visit_ids(*l).union(visit_ids(*r)));
                        },
                    }
                },
            }
        },
        ExprKind::Let(pat, init) => {
            lemma_flow_total_opt(cx, f, init, succ, lo, hi, d, b, c);
            match flow_opt(cx, f, init, succ) {
                Err(_) => {},
                Ok((f1, s1)) => {
                    lemma_after_move(cx, f, f1, succ, d, b, c, Set::empty());
                    let bs = bindings(pat, true);
                    lemma_total_defs(cx, f1, bs, 0, s1, lo, hi, d, b, c);
                    assert(binding_ids_from(bs, 0) =~= binding_ids(bs));
                    lemma_total_then(
                        cx,
                        f,
                        f1,
                        flow_defs(cx, f1, bs, 0, s1),
                        entry(cx, e, succ, f.break_ln, f.cont_ln),
                        b,
                        c,
                        visit_ids_opt(init),
                        binding_ids(bs),
                    );
                    assert(visit_ids_opt(init).union(binding_ids(bs)) =~= visit_ids(e));
                },
            }
        },
        ExprKind::Block(es, targeted) => {
            if targeted {
                let f0 = Flow { break_ln: f.break_ln.insert(e.id, succ), ..f };
                let b0 = b.insert(e.id);
                assert(targets_within(f0.break_ln, n));
                assert(ready(cx, f0));
                assert(scope_ok(cx, f0, b0, c)) by {
                    assert forall|k: u64| #[trigger] b0.contains(k) implies f0.break_ln.contains_key(
                        k,
                    ) && good(cx, f0, f0.break_ln[k]) by {
                        if k != e.id {
                            assert(b.contains(k));
                        }
                    }
                }
                lemma_flow_total_exprs(cx, f0, es@, es@.len(), succ, lo, hi, d, b0, c);
                match flow_exprs(cx, f0, es@, es@.len(), succ) {
                    Err(_) => {},
                    Ok((g, _)) => {
                        assert forall|k: u64| b.contains(k) implies f.break_ln.contains_key(k)
                            && g.break_ln.contains_key(k) && f.break_ln[k] == g.break_ln[k] by {
                            assert(b0.contains(k));
                            assert(f0.break_ln.contains_key(k));
                        }
                    },
                }
            } else {
                lemma_flow_total_exprs(cx, f, es@, es@.len(), succ, lo, hi, d, b, c);
            }
        },
        ExprKind::Loop(body) => {
            let ln = cx.ir.live[e.id];
            let inner = (ln.0 + 1) as nat;
            lemma_expr_node_not_def(cx.ir, e.id);
            let f0 = Flow {
                break_ln: f.break_ln.insert(e.id, succ),
                cont_ln: f.cont_ln.insert(e.id, ln),
                ..f.init_empty(ln, succ)
            };
            let b0 = b.insert(e.id);
            let c0 = c.insert(e.id);
            assert(targets_within(f0.break_ln, n));
            assert(targets_within(f0.cont_ln, n));
            assert(ready(cx, f0));
            assert(succs_kept(cx, f, f0));
            assert(good(cx, f0, ln));
            assert(good(cx, f0, succ));
            assert(scope_ok(cx, f0, b0, c0)) by {
                assert forall|k: u64| #[trigger] b0.contains(k) implies f0.break_ln.contains_key(k)
                    && good(cx, f0, f0.break_ln[k]) by {
                    if k != e.id {
                        assert(b.contains(k));
                        assert(good(cx, f, f.break_ln[k]));
                    }
                }
                assert forall|k: u64| #[trigger] c0.contains(k) implies f0.cont_ln.contains_key(k)
                    && good(cx, f0, f0.cont_ln[k]) by {
                    if k != e.id {
                        assert(c.contains(k));
                        assert(good(cx, f, f.cont_ln[k]));
                    }
                }
            }
            lemma_flow_total(cx, f0, *body, ln, inner, hi, d, b0, c0);
            lemma_flow_expr(cx, f0, *body, ln, inner, hi);
            match flow_expr(cx, f0, *body, ln) {
                Err(_) => {},
                Ok((f1, body_ln)) => {
                    lemma_after_move(cx, f0, f1, ln, d, b0, c0, Set::empty());
                    lemma_unset_bound(f1.rows[ln.0 as int], cx.ir.var_kinds.len());
                    lemma_fix_total(
                        cx,
                        f1,
                        *body,
                        ln,
                        body_ln,
                        None,
                        round_limit(cx),
                        inner,
                        hi,
                        d,
                        b0,
                        c0,
                        f0.break_ln,
                        f0.cont_ln,
                    );
                    match flow_fix(cx, f1, *body, ln, body_ln, None, round_limit(cx)) {
                        Err(_) => {},
                        Ok(g) => {
                            lemma_moved_twice(cx, f0, f1, g, b0, c0);
                            lemma_after_move(cx, f1, g, ln, d, b0, c0, visit_ids(*body));
                            assert forall|k: u64| b.contains(k) implies f.break_ln.contains_key(k)
                                && g.break_ln.contains_key(k) && f.break_ln[k] == g.break_ln[k] by {
                                assert(b0.contains(k));
                                assert(f0.break_ln.contains_key(k));
                            }
                            assert forall|k: u64| c.contains(k) implies f.cont_ln.contains_key(k)
                                && g.cont_ln.contains_key(k) && f.cont_ln[k] == g.cont_ln[k] by {
                                assert(c0.contains(k));
                                assert(f0.cont_ln.contains_key(k));
                            }
                            assert forall|m: int|
                                0 <= m < n && f.successors[m].0 < n implies (
                            #[trigger] g.successors[m]).0 < n by {
                                assert(f0.successors[m].0 < n);
                            }
                            assert(link_ok(cx, f0, e.id));
                            assert(link_ok(cx, g, e.id));
                        },
                    }
                },
            }
        },
        ExprKind::Match(scrutinee, arms) => {
            let ln = cx.ir.live[e.id];
            lemma_expr_node_not_def(cx.ir, e.id);
            let f0 = f.init_empty(ln, succ);
            assert(ready(cx, f0));
            assert(moved(cx, f, f0, b, c));
            lemma_after_move(cx, f, f0, succ, d, b, c, Set::empty());
            lemma_flow_total_arms(cx, f0, arms@, 0, ln, succ, lo, hi, d, b, c);
            match flow_arms(cx, f0, arms@, 0, ln, succ) {
                Err(_) => {},
                Ok(f1) => {
                    lemma_moved_twice(cx, f, f0, f1, b, c);
                    lemma_after_move(cx, f0, f1, ln, d, b, c, Set::empty());
                    assert(link_ok(cx, f0, e.id));
                    assert(link_ok(cx, f1, e.id));
                    assert(good(cx, f1, ln));
                    lemma_flow_total(cx, f1, *scrutinee, ln, lo, hi, d, b, c);
                    lemma_entry_same(
                        cx,
                        *scrutinee,
                        ln,
                        f1.break_ln,
                        f1.cont_ln,
                        f.break_ln,
                        f.cont_ln,
                        d,
                        b,
                        c,
                    );
                    assert(all_linked(cx, f1, visit_ids_arms(arms@, 0).insert(e.id)));
                    lemma_total_then(
                        cx,
                        f,
                        f1,
                        flow_expr(cx, f1, *scrutinee, ln),
                        entry(cx, e, succ, f.break_ln, f.cont_ln),
                        b,
                        c,
                        visit_ids_arms(arms@, 0).insert(e.id),
                        visit_ids(*scrutinee),
                    );
                    assert(visit_ids_arms(arms@, 0).insert(e.id).union(visit_ids(*scrutinee))
                        =~= visit_ids(e));
                },
            }
        },
        ExprKind::Ret(value) => {
            lemma_flow_total_opt(cx, f, value, cx.s.exit_ln, lo, hi, d, b, c);
        },
        ExprKind::Break(target, value) => {
            let id = target->Some_0;
            assert(b.contains(id));
            assert(f.break_ln.contains_key(id));
            lemma_flow_total_opt(cx, f, value, f.break_ln[id], lo, hi, d, b, c);
        },
        ExprKind::Continue(target) => {
            let id = target->Some_0;
            assert(c.contains(id));
            assert(f.cont_ln.contains_key(id));
            lemma_moved_rows(cx, f, f, b, c);
        },
        ExprKind::Closure(body) => {
            let cs = cx.ir.caps[e.id];
            assert forall|i: int| 0 <= i < cs.len() implies not_def(cx.ir, (#[trigger] cs[i]).ln) by {
                assert(cx.ir.caps[e.id][i].ln == cs[i].ln);
            }
            assert forall|i: int| 0 <= i < cs.len() implies (#[trigger] cs[i]).ln.0 < n by {
                assert(cx.ir.caps[e.id][i].ln == cs[i].ln);
            }
            assert forall|i: int| 0 <= i < cs.len() implies d.contains((#[trigger] cs[i]).var_hid) by {
                assert(cx.ir.caps[e.id][i].var_hid == body.upvars@[i].var);
            }
            lemma_total_captures(cx, f, cs, cs.len(), succ, d, b, c);
        },
    }
}

/// The ids visited by the write to a place.
pub open spec fn written_ids(l: Expr) -> Set<u64> {
    match l.kind {
        ExprKind::Local(_) => set![l.id],
        _ => Set::empty(),
    }
}

/// The ids visited in the components of a place.
pub open spec fn place_ids(l: Expr) -> Set<u64> {
    match l.kind {
        ExprKind::Local(_) => Set::empty(),
        _ => visit_ids(l),
    }
}

pub proof fn lemma_total_write_place(
    cx: Cx,
    f: Flow,
    l: Expr,
    succ: LiveNode,
    acc: Access,
    lo: nat,
    hi: nat,
    d: Set<u64>,
    b: Set<u64>,
    c: Set<u64>,
)
    requires
        set_up(cx, f, succ, d, b, c),
        numbered(cx.ir, l, lo, hi),
        resolved(d, l, b, c),
    ensures
        total(
            cx,
            f,
            flow_write_place(cx, f, l, succ, acc),
            entry_write(cx, l, succ),
            b,
            c,
            written_ids(l),
        ),
{
    match l.kind {
        ExprKind::Local(var) => {
            lemma_total_access(cx, f, l.id, var, succ, acc, lo, hi, d, b, c);
        },
        _ => {
            lemma_moved_rows(cx, f, f, b, c);
        },
    }
}

pub proof fn lemma_total_place(
    cx: Cx,
    f: Flow,
    l: Expr,
    succ: LiveNode,
    lo: nat,
    hi: nat,
    d: Set<u64>,
    b: Set<u64>,
    c: Set<u64>,
)
    requires
        set_up(cx, f, succ, d, b, c),
        numbered(cx.ir, l, lo, hi),
        resolved(d, l, b, c),
    ensures
        total(
            cx,
            f,
            flow_place_components(cx, f, l, succ),
            entry_place(cx, l, succ, f.break_ln, f.cont_ln),
            b,
            c,
            place_ids(l),
        ),
    decreases l, 1nat,
{
    match l.kind {
        ExprKind::Local(_) => {
            lemma_moved_rows(cx, f, f, b, c);
        },
        _ => {
            lemma_flow_total(cx, f, l, succ, lo, hi, d, b, c);
        },
    }
}

pub proof fn lemma_flow_total_opt(
    cx: Cx,
    f: Flow,
    o: Option<Box<Expr>>,
    succ: LiveNode,
    lo: nat,
    hi: nat,
    d: Set<u64>,
    b: Set<u64>,
    c: Set<u64>,
)
    requires
        set_up(cx, f, succ, d, b, c),
        numbered_opt(cx.ir, o, lo, hi),
        resolved_opt(d, o, b, c),
    ensures
        total(
            cx,
            f,
            flow_opt(cx, f, o, succ),
            entry_opt(cx, o, succ, f.break_ln, f.cont_ln),
            b,
            c,
            visit_ids_opt(o),
        ),
    decreases o, 0nat,
{
    match o {
        Some(e) => lemma_flow_total(cx, f, *e, succ, lo, hi, d, b, c),
        None => {
            lemma_moved_rows(cx, f, f, b, c);
        },
    }
}

pub proof fn lemma_flow_total_exprs(
    cx: Cx,
    f: Flow,
    es: Seq<Expr>,
    n: nat,
    succ: LiveNode,
    lo: nat,
    hi: nat,
    d: Set<u64>,
    b: Set<u64>,
    c: Set<u64>,
)
    requires
        set_up(cx, f, succ, d, b, c),
        numbered_exprs(cx.ir, es, lo, hi),
        resolved_exprs(d, es, b, c),
    ensures
        total(
            cx,
            f,
            flow_exprs(cx, f, es, n, succ),
            entry_exprs(cx, es, n, succ, f.break_ln, f.cont_ln),
            b,
            c,
            visit_ids_upto(es, n),
        ),
    decreases es, n,
{
    if n == 0 || n > es.len() {
        lemma_moved_rows(cx, f, f, b, c);
    } else {
        let e = es[n - 1];
        assert(numbered(cx.ir, e, lo, hi));
        assert(resolved(d, e, b, c));
        lemma_flow_total(cx, f, e, succ, lo, hi, d, b, c);
        match flow_expr(cx, f, e, succ) {
            Err(_) => {},
            Ok((f1, s1)) => {
                lemma_after_move(cx, f, f1, succ, d, b, c, Set::empty());
                lemma_flow_total_exprs(cx, f1, es, (n - 1) as nat, s1, lo, hi, d, b, c);
                lemma_entry_same_exprs(
                    cx,
                    es,
                    (n - 1) as nat,
                    s1,
                    f1.break_ln,
                    f1.cont_ln,
                    f.break_ln,
                    f.cont_ln,
                    d,
                    b,
                    c,
                );
                lemma_total_then(
                    cx,
                    f,
                    f1,
                    flow_exprs(cx, f1, es, (n - 1) as nat, s1),
                    entry_exprs(cx, es, n, succ, f.break_ln, f.cont_ln),
                    b,
                    c,
                    visit_ids(e),
                    visit_ids_upto(es, (n - 1) as nat),
                );
                assert(visit_ids(e).union(visit_ids_upto(es, (n - 1) as nat)) =~= visit_ids_upto(
                    es,
                    n,
                ));
            },
        }
    }
}

pub proof fn lemma_flow_total_arm(
    cx: Cx,
    f: Flow,
    arm: Arm,
    ln: LiveNode,
    succ: LiveNode,
    lo: nat,
    hi: nat,
    d: Set<u64>,
    b: Set<u64>,
    c: Set<u64>,
)
    requires
        set_up(cx, f, succ, d, b, c),
        ln.0 < cx.ir.lnks.len(),
        not_def(cx.ir, ln),
        numbered_arm(cx.ir, arm, lo, hi),
        resolved_arm(d, arm, b, c),
    ensures
        total_flow(cx, f, flow_arm(cx, f, arm, ln, succ), b, c, visit_ids_arm(arm)),
    decreases arm, 0nat,
{
    lemma_flow_total(cx, f, arm.body, succ, lo, hi, d, b, c);
    match flow_expr(cx, f, arm.body, succ) {
        Err(_) => {},
        Ok((f1, body_succ)) => {
            lemma_after_move(cx, f, f1, succ, d, b, c, Set::empty());
            let guarded = match arm.guard {
                Some(g) => flow_expr(cx, f1, g, body_succ),
                None => Ok((f1, body_succ)),
            };
            let guard_ids = match arm.guard {
                Some(g) => visit_ids(g),
                None => Set::empty(),
            };
            match arm.guard {
                Some(g) => {
                    lemma_flow_total(cx, f1, g, body_succ, lo, hi, d, b, c);
                },
                None => {
                    lemma_moved_rows(cx, f1, f1, b, c);
                },
            }
            match guarded {
                Err(_) => {},
                Ok((f2, guard_succ)) => {
                    lemma_moved_twice(cx, f, f1, f2, b, c);
                    lemma_after_move(cx, f1, f2, succ, d, b, c, visit_ids(arm.body));
                    let bs = bindings(arm.pat, true);
                    lemma_total_defs(cx, f2, bs, 0, guard_succ, lo, hi, d, b, c);
                    assert(binding_ids_from(bs, 0) =~= binding_ids(bs));
                    match flow_defs(cx, f2, bs, 0, guard_succ) {
                        Err(_) => {},
                        Ok((f3, arm_succ)) => {
                            lemma_moved_twice(cx, f, f2, f3, b, c);
                            lemma_after_move(cx, f2, f3, succ, d, b, c, visit_ids(arm.body));
                            lemma_after_move(cx, f2, f3, succ, d, b, c, guard_ids);
                            lemma_merge(cx, f3, ln, arm_succ);
                            let f4 = f3.merge_from_succ(ln, arm_succ);
                            lemma_after_move(cx, f, f3, succ, d, b, c, Set::empty());
                            lemma_moved_rows(cx, f3, f4, b, c);
                            lemma_moved_twice(cx, f, f3, f4, b, c);
                            assert forall|id: u64| visit_ids_arm(arm).contains(
                                id,
                            ) implies #[trigger] link_ok(cx, f4, id) by {
                                if binding_ids(bs).contains(id) {
                                    assert(link_ok(cx, f3, id));
                                } else if guard_ids.contains(id) {
                                    assert(link_ok(cx, f3, id));
                                } else {
                                    assert(visit_ids(arm.body).contains(id));
                                    assert(link_ok(cx, f3, id));
                                }
                            }
                        },
                    }
                },
            }
        },
    }
}

pub proof fn lemma_flow_total_arms(
    cx: Cx,
    f: Flow,
    arms: Seq<Arm>,
    i: nat,
    ln: LiveNode,
    succ: LiveNode,
    lo: nat,
    hi: nat,
    d: Set<u64>,
    b: Set<u64>,
    c: Set<u64>,
)
    requires
        set_up(cx, f, succ, d, b, c),
        ln.0 < cx.ir.lnks.len(),
        not_def(cx.ir, ln),
        numbered_arms(cx.ir, arms, lo, hi),
        resolved_arms(d, arms, b, c),
    ensures
        total_flow(cx, f, flow_arms(cx, f, arms, i, ln, succ), b, c, visit_ids_arms(arms, i)),
    decreases arms, arms.len() - i,
{
    if i >= arms.len() {
        lemma_moved_rows(cx, f, f, b, c);
    } else {
        let arm = arms[i as int];
        assert(numbered_arm(cx.ir, arm, lo, hi));
        assert(resolved_arm(d, arm, b, c));
        lemma_flow_total_arm(cx, f, arm, ln, succ, lo, hi, d, b, c);
        match flow_arm(cx, f, arm, ln, succ) {
            Err(_) => {},
            Ok(f1) => {
                lemma_after_move(cx, f, f1, succ, d, b, c, Set::empty());
                lemma_flow_total_arms(cx, f1, arms, i + 1, ln, succ, lo, hi, d, b, c);
                match flow_arms(cx, f1, arms, i + 1, ln, succ) {
                    Err(_) => {},
                    Ok(f2) => {
                        lemma_moved_twice(cx, f, f1, f2, b, c);
                        lemma_after_move(cx, f1, f2, succ, d, b, c, visit_ids_arm(arm));
                        assert forall|id: u64| visit_ids_arms(arms, i).contains(
                            id,
                        ) implies #[trigger] link_ok(cx, f2, id) by {
                            if visit_ids_arm(arm).contains(id) {
                                assert(link_ok(cx, f2, id));
                            } else {
                                assert(visit_ids_arms(arms, i + 1).contains(id));
                            }
                        }
                    },
                }
            },
        }
    }
}

/// On a well-formed body a fixed point is reached: no round runs out, and
/// each walk over the body gives the entry node that the first one gave.
pub proof fn lemma_fix_total(
    cx: Cx,
    f: Flow,
    body: Expr,
    target: LiveNode,
    entry_ln: LiveNode,
    reentry: Option<Seq<Variable>>,
    fuel: nat,
    lo: nat,
    hi: nat,
    d: Set<u64>,
    b: Set<u64>,
    c: Set<u64>,
    bm0: Map<u64, LiveNode>,
    cm0: Map<u64, LiveNode>,
)
    requires
        set_up(cx, f, target, d, b, c),
        numbered(cx.ir, body, lo, hi),
        resolved(d, body, b, c),
        covers(bm0, f.break_ln, b),
        covers(cm0, f.cont_ln, c),
        entry_ln == entry(cx, body, target, bm0, cm0),
        entry_ln.0 < cx.ir.lnks.len(),
        !(lo <= target.0 < hi),
        not_def(cx.ir, target),
        reentry matches Some(vars) ==> {
            &&& forall|k: int| 0 <= k < vars.len() ==> (#[trigger] vars[k]).0 < cx.ir.var_kinds.len()
            &&& !(lo <= cx.s.closure_ln.0 < hi)
            &&& cx.s.closure_ln != target
        },
        unset_in(f.rows[target.0 as int], cx.ir.var_kinds.len()) <= fuel,
    ensures
        total_flow(cx, f, flow_fix(cx, f, body, target, entry_ln, reentry, fuel), b, c, Set::empty()),
    decreases body, fuel + 1,
{
    let v = cx.ir.var_kinds.len();
    let closure_ln = cx.s.closure_ln;
    let f1 = round_start(cx, f, entry_ln, reentry);
    let source = round_source(cx, entry_ln, reentry);
    match reentry {
        None => {},
        Some(vars) => {
            assert(not_def(cx.ir, closure_ln));
            lemma_init(cx, f, closure_ln, entry_ln);
            let g = f.init_from_succ(closure_ln, entry_ln);
            lemma_define_all(cx, g, closure_ln, vars, 0);
            lemma_define_all_links(g, closure_ln, vars, 0);
            assert(f1.successors == f.successors.update(closure_ln.0 as int, entry_ln));
        },
    }
    assert(ready(cx, f1));
    assert(moved(cx, f, f1, b, c));
    assert(f1.rows[target.0 as int] == f.rows[target.0 as int]);
    lemma_merge(cx, f1, target, source);
    let f2 = f1.merge_from_succ(target, source);
    if f2.rows == f1.rows {
    } else {
        assert(target != source);
        let a = f1.rows[target.0 as int];
        let bb = f1.rows[source.0 as int];
        let m = merged_row(a, bb, a.len() as int);
        assert(f2.rows[target.0 as int] == m);
        assert(m != a) by {
            if m == a {
                assert(f2.rows =~= f1.rows);
            }
        }
        assert(!(m =~= a));
        lemma_merge_unset(a, bb, v);
        assert(fuel > 0);
        lemma_after_move(cx, f, f1, target, d, b, c, Set::empty());
        lemma_moved_rows(cx, f1, f2, b, c);
        lemma_moved_twice(cx, f, f1, f2, b, c);
        lemma_after_move(cx, f1, f2, target, d, b, c, Set::empty());
        lemma_flow_total(cx, f2, body, target, lo, hi, d, b, c);
        lemma_flow_expr(cx, f2, body, target, lo, hi);
        lemma_entry_same(cx, body, target, f2.break_ln, f2.cont_ln, bm0, cm0, d, b, c);
        match flow_expr(cx, f2, body, target) {
            Err(_) => {},
            Ok((f3, again)) => {
                assert(again == entry_ln);
                assert(f3.rows[target.0 as int] == f2.rows[target.0 as int]);
                lemma_moved_twice(cx, f, f2, f3, b, c);
                lemma_after_move(cx, f2, f3, target, d, b, c, Set::empty());
                lemma_fix_total(
                    cx,
                    f3,
                    body,
                    target,
                    entry_ln,
                    reentry,
                    (fuel - 1) as nat,
                    lo,
                    hi,
                    d,
                    b,
                    c,
                    bm0,
                    cm0,
                );
                match flow_fix(cx, f3, body, target, entry_ln, reentry, (fuel - 1) as nat) {
                    Err(_) => {},
                    Ok(f4) => {
                        lemma_moved_twice(cx, f, f3, f4, b, c);
                    },
                }
            },
        }
    }
}

/// Definitions touch neither targets nor successors.
pub proof fn lemma_define_all_links(f: Flow, ln: LiveNode, vars: Seq<Variable>, i: nat)
    ensures
        f.define_all(ln, vars, i).successors == f.successors,
        f.define_all(ln, vars, i).break_ln == f.break_ln,
        f.define_all(ln, vars, i).cont_ln == f.cont_ln,
    decreases vars.len() - i,
{
    if i < vars.len() {
        lemma_define_all_links(f.define(ln, vars[i as int]), ln, vars, i + 1);
    }
}

pub proof fn lemma_flow_upvars_total(cx: Cx, f: Flow, us: Seq<Upvar>, n: nat)
    requires
        ready(cx, f),
        forall|k: int| 0 <= k < us.len() ==> cx.ir.vars.contains_key((#[trigger] us[k]).var),
    ensures
        flow_upvars(cx, f, us, n) matches Ok(g) && ready(cx, g) && g.successors == f.successors
            && g.break_ln == f.break_ln && g.cont_ln == f.cont_ln,
    decreases n,
{
    if n == 0 || n > us.len() {
    } else if !us[n - 1].by_ref {
        lemma_flow_upvars_total(cx, f, us, (n - 1) as nat);
    } else {
        assert(cx.ir.vars.contains_key(us[n - 1].var));
        let var = cx.ir.vars[us[n - 1].var];
        let exit_ln = cx.s.exit_ln;
        assert(not_def(cx.ir, exit_ln));
        let g = f.acc(exit_ln, var, Access::ReadUse);
        let h = f.init_from_succ(exit_ln, exit_ln).acc(exit_ln, var, Access::ReadUse);
        assert(f.init_from_succ(exit_ln, exit_ln).rows =~= f.rows);
        assert(g.rows == h.rows);
        lemma_access(cx, f, exit_ln, exit_ln, var, Access::ReadUse);
        assert(g.wf(cx.ir.lnks.len(), cx.ir.var_kinds.len())) by {
            assert(h.wf(cx.ir.lnks.len(), cx.ir.var_kinds.len()));
        }
        lemma_flow_upvars_total(cx, g, us, (n - 1) as nat);
    }
}

pub proof fn lemma_vars_of_total(ir: IrState, bs: Seq<Binding>, i: nat, acc: Seq<Variable>)
    requires
        ir.wf(),
        forall|k: int| 0 <= k < acc.len() ==> (#[trigger] acc[k]).0 < ir.var_kinds.len(),
        forall|k: int| 0 <= k < bs.len() && (#[trigger] bs[k]).first ==> ir.vars.contains_key(bs[k].id),
    ensures
        vars_of(ir, bs, i, acc) matches Ok(vars) && forall|k: int|
            0 <= k < vars.len() ==> (#[trigger] vars[k]).0 < ir.var_kinds.len(),
    decreases bs.len() - i,
{
    if i < bs.len() {
        if !bs[i as int].first {
            lemma_vars_of_total(ir, bs, i + 1, acc);
        } else {
            assert(ir.vars.contains_key(bs[i as int].id));
            lemma_vars_of_total(ir, bs, i + 1, acc.push(ir.vars[bs[i as int].id]));
        }
    }
}

/// Every binding of a parameter that declares a variable has one.
pub open spec fn params_declared(ir: IrState, ps: Seq<Pat>) -> bool {
    forall|k: int, j: int|
        0 <= k < ps.len() && 0 <= j < bindings(ps[k], true).len() && (#[trigger] bindings(
            ps[k],
            true,
        )[j]).first ==> ir.vars.contains_key(bindings(ps[k], true)[j].id)
}

pub proof fn lemma_param_vars_total(ir: IrState, ps: Seq<Pat>, i: nat, acc: Seq<Variable>)
    requires
        ir.wf(),
        forall|k: int| 0 <= k < acc.len() ==> (#[trigger] acc[k]).0 < ir.var_kinds.len(),
        params_declared(ir, ps),
    ensures
        param_vars(ir, ps, i, acc) matches Ok(vars) && forall|k: int|
            0 <= k < vars.len() ==> (#[trigger] vars[k]).0 < ir.var_kinds.len(),
    decreases ps.len() - i,
{
    if i < ps.len() {
        let bs = bindings(ps[i as int], true);
        assert forall|j: int| 0 <= j < bs.len() && (#[trigger] bs[j]).first implies ir.vars.contains_key(
            bs[j].id,
        ) by {
            assert(bindings(ps[i as int], true)[j].first);
        }
        lemma_vars_of_total(ir, bs, 0, acc);
        match vars_of(ir, bs, 0, acc) {
            Err(_) => {},
            Ok(acc1) => {
                lemma_param_vars_total(ir, ps, i + 1, acc1);
            },
        }
    }
}

/// The second pass goes through on a well-formed, soundly numbered body.
pub proof fn lemma_flow_body_total(cx: Cx, f: Flow, body: Body, d: Set<u64>)
    requires
        ready(cx, f),
        numbered(cx.ir, body.value, 0, cx.s.closure_ln.0 as nat),
        cx.s.closure_ln.0 < cx.s.exit_ln.0,
        resolved(d, body.value, Set::empty(), Set::empty()),
        declared_in(cx, d),
        forall|k: int|
            0 <= k < body.upvars@.len() ==> cx.ir.vars.contains_key(
                (#[trigger] body.upvars@[k]).var,
            ),
        params_declared(cx.ir, body.params@),
    ensures
        flow_body(cx, f, body) matches Ok((g, entry_ln)) && ready(cx, g) && entry_ln.0
            < cx.ir.lnks.len() && all_linked(cx, g, visit_ids(body.value)) && good(
            cx,
            g,
            entry_ln,
        ),
{
    let hi = cx.s.closure_ln.0 as nat;
    let none = Set::<u64>::empty();
    let exit_ln = cx.s.exit_ln;
    lemma_flow_upvars_total(cx, f, body.upvars@, body.upvars@.len());
    match flow_upvars(cx, f, body.upvars@, body.upvars@.len()) {
        Err(_) => {},
        Ok(f1) => {
            assert(set_up(cx, f1, exit_ln, d, none, none));
            lemma_flow_total(cx, f1, body.value, exit_ln, 0, hi, d, none, none);
            lemma_flow_expr(cx, f1, body.value, exit_ln, 0, hi);
            match flow_expr(cx, f1, body.value, exit_ln) {
                Err(_) => {},
                Ok((f2, entry_ln)) => {
                    if body.kind.reentrant() {
                        lemma_param_vars_total(cx.ir, body.params@, 0, Seq::empty());
                        match param_vars(cx.ir, body.params@, 0, Seq::empty()) {
                            Err(_) => {},
                            Ok(vars) => {
                                assert(not_def(cx.ir, exit_ln));
                                lemma_unset_bound(f2.rows[exit_ln.0 as int], cx.ir.var_kinds.len());
                                assert(set_up(cx, f2, exit_ln, d, none, none));
                                lemma_fix_total(
                                    cx,
                                    f2,
                                    body.value,
                                    exit_ln,
                                    entry_ln,
                                    Some(vars),
                                    round_limit(cx),
                                    0,
                                    hi,
                                    d,
                                    none,
                                    none,
                                    f1.break_ln,
                                    f1.cont_ln,
                                );
                                match flow_fix(
                                    cx,
                                    f2,
                                    body.value,
                                    exit_ln,
                                    entry_ln,
                                    Some(vars),
                                    round_limit(cx),
                                ) {
                                    Err(_) => {},
                                    Ok(f3) => {
                                        lemma_after_move(
                                            cx,
                                            f2,
                                            f3,
                                            entry_ln,
                                            d,
                                            none,
                                            none,
                                            visit_ids(body.value),
                                        );
                                    },
                                }
                            },
                        }
                    }
                },
            }
        },
    }
}

/// What the third pass needs of a binding that declares a variable, by the
/// place of its pattern.
pub open spec fn checkable(cx: Cx, f: Flow, id: u64, role: PatRole) -> bool {
    &&& cx.ir.vars.contains_key(id)
    &&& match role {
        PatRole::Param(entry_ln) => entry_ln.0 < cx.ir.lnks.len() && good(cx, f, entry_ln),
        PatRole::Binding => cx.ir.live.contains_key(id) && link_ok(cx, f, id),
    }
}

pub proof fn lemma_check_pat_total(
    cx: Cx,
    f: Flow,
    bs: Seq<Binding>,
    i: nat,
    role: PatRole,
    acc: Seq<DiagnosticView>,
)
    requires
        ready(cx, f),
        forall|k: int| 0 <= k < bs.len() && (#[trigger] bs[k]).first ==> checkable(cx, f, bs[k].id, role),
    ensures
        check_pat(cx, f, bs, i, role, acc) is Ok,
    decreases bs.len() - i,
{
    if i < bs.len() {
        if !is_leader(bs, i as int) {
            lemma_check_pat_total(cx, f, bs, i + 1, role, acc);
        } else {
            assert(bs[i as int].first);
            assert(checkable(cx, f, bs[i as int].id, role));
            match check_group(cx, f, bs, i as int, role, acc) {
                Err(_) => {
                    assert(false);
                },
                Ok(acc1) => {
                    lemma_check_pat_total(cx, f, bs, i + 1, role, acc1);
                },
            }
        }
    }
}

pub proof fn lemma_check_place_total(
    cx: Cx,
    f: Flow,
    l: Expr,
    acc: Seq<DiagnosticView>,
    lo: nat,
    hi: nat,
    d: Set<u64>,
    b: Set<u64>,
    c: Set<u64>,
)
    requires
        ready(cx, f),
        numbered(cx.ir, l, lo, hi),
        resolved(d, l, b, c),
        declared_in(cx, d),
        all_linked(cx, f, written_ids(l)),
    ensures
        check_place(cx, f, l, acc) is Ok,
{
    match l.kind {
        ExprKind::Local(var) => {
            assert(written_ids(l).contains(l.id));
            assert(link_ok(cx, f, l.id));
        },
        _ => {},
    }
}

pub proof fn lemma_upto_holds(es: Seq<Expr>, n: nat, i: int)
    requires
        0 <= i < n <= es.len(),
    ensures
        visit_ids(es[i]).subset_of(visit_ids_upto(es, n)),
    decreases n,
{
    if i < n - 1 {
        lemma_upto_holds(es, (n - 1) as nat, i);
    }
}

pub proof fn lemma_arms_hold(arms: Seq<Arm>, i: nat, k: int)
    requires
        i <= k < arms.len(),
    ensures
        visit_ids_arm(arms[k]).subset_of(visit_ids_arms(arms, i)),
    decreases arms.len() - i,
{
    if i < k {
        lemma_arms_hold(arms, i + 1, k);
    }
}

pub proof fn lemma_linked_subset(cx: Cx, f: Flow, all: Set<u64>, part: Set<u64>)
    requires
        all_linked(cx, f, all),
        part.subset_of(all),
    ensures
        all_linked(cx, f, part),
{
    assert forall|id: u64| part.contains(id) implies #[trigger] link_ok(cx, f, id) by {
        assert(all.contains(id));
    }
}

pub proof fn lemma_defs_checkable(cx: Cx, f: Flow, bs: Seq<Binding>, lo: nat, hi: nat)
    requires
        defs_in(cx.ir, bs, lo, hi),
        all_linked(cx, f, binding_ids(bs)),
    ensures
        forall|k: int|
            0 <= k < bs.len() && (#[trigger] bs[k]).first ==> checkable(
                cx,
                f,
                bs[k].id,
                PatRole::Binding,
            ),
{
    assert forall|k: int| 0 <= k < bs.len() && (#[trigger] bs[k]).first implies checkable(
        cx,
        f,
        bs[k].id,
        PatRole::Binding,
    ) by {
        assert(binding_ids(bs).contains(bs[k].id));
        assert(link_ok(cx, f, bs[k].id));
    }
}

/// The third pass goes through on a well-formed, soundly numbered
/// expression whose nodes all have their successors.
pub proof fn lemma_check_total(
    cx: Cx,
    f: Flow,
    e: Expr,
    acc: Seq<DiagnosticView>,
    lo: nat,
    hi: nat,
    d: Set<u64>,
    b: Set<u64>,
    c: Set<u64>,
)
    requires
        ready(cx, f),
        numbered(cx.ir, e, lo, hi),
        resolved(d, e, b, c),
        declared_in(cx, d),
        all_linked(cx, f, visit_ids(e)),
    ensures
        check_expr(cx, f, e, acc) is Ok,
    decreases e, 1nat,
{
    match e.kind {
        ExprKind::Local(_) => {},
        ExprKind::Compound(es, _) => {
            lemma_check_exprs_total(cx, f, es@, 0, acc, lo, hi, d, b, c);
        },
        ExprKind::Lazy(l, r) => {
            lemma_linked_subset(cx, f, visit_ids(e), visit_ids(*l));
            lemma_linked_subset(cx, f, visit_ids(e), visit_ids(*r));
            lemma_check_total(cx, f, *l, acc, lo, hi, d, b, c);
            match check_expr(cx, f, *l, acc) {
                Err(_) => {},
                Ok(acc1) => {
                    lemma_check_total(cx, f, *r, acc1, lo, hi, d, b, c);
                },
            }
        },
        ExprKind::Assign(l, r) => {
            lemma_check_pair_total(cx, f, e, *l, *r, acc, lo, hi, d, b, c);
        },
        ExprKind::AssignOp(l, r) => {
            lemma_check_pair_total(cx, f, e, *l, *r, acc, lo, hi, d, b, c);
        },
        ExprKind::Let(pat, init) => {
            let bs = bindings(pat, true);
            lemma_linked_subset(cx, f, visit_ids(e), binding_ids(bs));
            lemma_linked_subset(cx, f, visit_ids(e), visit_ids_opt(init));
            lemma_defs_checkable(cx, f, bs, lo, hi);
            lemma_check_pat_total(cx, f, bs, 0, PatRole::Binding, acc);
            match check_pat(cx, f, bs, 0, PatRole::Binding, acc) {
                Err(_) => {},
                Ok(acc1) => {
                    lemma_check_opt_total(cx, f, init, acc1, lo, hi, d, b, c);
                },
            }
        },
        ExprKind::Block(es, targeted) => {
            if targeted {
                lemma_check_exprs_total(cx, f, es@, 0, acc, lo, hi, d, b.insert(e.id), c);
            } else {
                lemma_check_exprs_total(cx, f, es@, 0, acc, lo, hi, d, b, c);
            }
        },
        ExprKind::Loop(body) => {
            lemma_linked_subset(cx, f, visit_ids(e), visit_ids(*body));
            lemma_check_total(
                cx,
                f,
                *body,
                acc,
                (cx.ir.live[e.id].0 + 1) as nat,
                hi,
                d,
                b.insert(e.id),
                c.insert(e.id),
            );
        },
        ExprKind::Match(scrutinee, arms) => {
            lemma_linked_subset(cx, f, visit_ids(e), visit_ids(*scrutinee));
            lemma_linked_subset(cx, f, visit_ids(e), visit_ids_arms(arms@, 0));
            lemma_check_total(cx, f, *scrutinee, acc, lo, hi, d, b, c);
            match check_expr(cx, f, *scrutinee, acc) {
                Err(_) => {},
                Ok(acc1) => {
                    lemma_check_arms_total(cx, f, arms@, 0, acc1, lo, hi, d, b, c);
                },
            }
        },
        ExprKind::Ret(value) => {
            lemma_check_opt_total(cx, f, value, acc, lo, hi, d, b, c);
        },
        ExprKind::Break(_, value) => {
            lemma_check_opt_total(cx, f, value, acc, lo, hi, d, b, c);
        },
        ExprKind::Continue(_) => {},
        ExprKind::Closure(body) => {
            lemma_analysis_total(*body, acc);
        },
    }
}

pub proof fn lemma_check_pair_total(
    cx: Cx,
    f: Flow,
    e: Expr,
    l: Expr,
    r: Expr,
    acc: Seq<DiagnosticView>,
    lo: nat,
    hi: nat,
    d: Set<u64>,
    b: Set<u64>,
    c: Set<u64>,
)
    requires
        e.kind == ExprKind::Assign(Box::new(l), Box::new(r)) || e.kind == ExprKind::AssignOp(
            Box::new(l),
            Box::new(r),
        ),
        ready(cx, f),
        numbered(cx.ir, e, lo, hi),
        resolved(d, e, b, c),
        declared_in(cx, d),
        all_linked(cx, f, visit_ids(e)),
    ensures
        check_expr(cx, f, e, acc) is Ok,
    decreases e, 0nat,
{
    assert(written_ids(l).subset_of(visit_ids(l)));
    lemma_linked_subset(cx, f, visit_ids(e), visit_ids(l));
    lemma_linked_subset(cx, f, visit_ids(e), visit_ids(r));
    lemma_linked_subset(cx, f, visit_ids(l), written_ids(l));
    lemma_check_place_total(cx, f, l, acc, lo, hi, d, b, c);
    match check_place(cx, f, l, acc) {
        Err(_) => {},
        Ok(acc1) => {
            lemma_check_total(cx, f, r, acc1, lo, hi, d, b, c);
            match check_expr(cx, f, r, acc1) {
                Err(_) => {},
                Ok(acc2) => {
                    lemma_check_total(cx, f, l, acc2, lo, hi, d, b, c);
                },
            }
        },
    }
}

pub proof fn lemma_check_opt_total(
    cx: Cx,
    f: Flow,
    o: Option<Box<Expr>>,
    acc: Seq<DiagnosticView>,
    lo: nat,
    hi: nat,
    d: Set<u64>,
    b: Set<u64>,
    c: Set<u64>,
)
    requires
        ready(cx, f),
        numbered_opt(cx.ir, o, lo, hi),
        resolved_opt(d, o, b, c),
        declared_in(cx, d),
        all_linked(cx, f, visit_ids_opt(o)),
    ensures
        check_opt(cx, f, o, acc) is Ok,
    decreases o, 0nat,
{
    match o {
        Some(e) => lemma_check_total(cx, f, *e, acc, lo, hi, d, b, c),
        None => {},
    }
}

pub proof fn lemma_check_exprs_total(
    cx: Cx,
    f: Flow,
    es: Seq<Expr>,
    i: nat,
    acc: Seq<DiagnosticView>,
    lo: nat,
    hi: nat,
    d: Set<u64>,
    b: Set<u64>,
    c: Set<u64>,
)
    requires
        ready(cx, f),
        numbered_exprs(cx.ir, es, lo, hi),
        resolved_exprs(d, es, b, c),
        declared_in(cx, d),
        all_linked(cx, f, visit_ids_upto(es, es.len())),
    ensures
        check_exprs(cx, f, es, i, acc) is Ok,
    decreases es, es.len() - i,
{
    if i < es.len() {
        let e = es[i as int];
        assert(numbered(cx.ir, e, lo, hi));
        assert(resolved(d, e, b, c));
        lemma_upto_holds(es, es.len(), i as int);
        lemma_linked_subset(cx, f, visit_ids_upto(es, es.len()), visit_ids(e));
        lemma_check_total(cx, f, e, acc, lo, hi, d, b, c);
        match check_expr(cx, f, e, acc) {
            Err(_) => {},
            Ok(acc1) => {
                lemma_check_exprs_total(cx, f, es, i + 1, acc1, lo, hi, d, b, c);
            },
        }
    }
}

pub proof fn lemma_check_arm_total(
    cx: Cx,
    f: Flow,
    arm: Arm,
    acc: Seq<DiagnosticView>,
    lo: nat,
    hi: nat,
    d: Set<u64>,
    b: Set<u64>,
    c: Set<u64>,
)
    requires
        ready(cx, f),
        numbered_arm(cx.ir, arm, lo, hi),
        resolved_arm(d, arm, b, c),
        declared_in(cx, d),
        all_linked(cx, f, visit_ids_arm(arm)),
    ensures
        check_arm(cx, f, arm, acc) is Ok,
    decreases arm, 0nat,
{
    let bs = bindings(arm.pat, true);
    lemma_linked_subset(cx, f, visit_ids_arm(arm), binding_ids(bs));
    lemma_linked_subset(cx, f, visit_ids_arm(arm), visit_ids(arm.body));
    lemma_defs_checkable(cx, f, bs, lo, hi);
    lemma_check_pat_total(cx, f, bs, 0, PatRole::Binding, acc);
    match check_pat(cx, f, bs, 0, PatRole::Binding, acc) {
        Err(_) => {},
        Ok(acc1) => {
            match arm.guard {
                Some(g) => {
                    lemma_linked_subset(cx, f, visit_ids_arm(arm), visit_ids(g));
                    lemma_check_total(cx, f, g, acc1, lo, hi, d, b, c);
                    match check_expr(cx, f, g, acc1) {
                        Err(_) => {},
                        Ok(acc2) => {
                            lemma_check_total(cx, f, arm.body, acc2, lo, hi, d, b, c);
                        },
                    }
                },
                None => {
                    lemma_check_total(cx, f, arm.body, acc1, lo, hi, d, b, c);
                },
            }
        },
    }
}

pub proof fn lemma_check_arms_total(
    cx: Cx,
    f: Flow,
    arms: Seq<Arm>,
    i: nat,
    acc: Seq<DiagnosticView>,
    lo: nat,
    hi: nat,
    d: Set<u64>,
    b: Set<u64>,
    c: Set<u64>,
)
    requires
        ready(cx, f),
        numbered_arms(cx.ir, arms, lo, hi),
        resolved_arms(d, arms, b, c),
        declared_in(cx, d),
        all_linked(cx, f, visit_ids_arms(arms, 0)),
    ensures
        check_arms(cx, f, arms, i, acc) is Ok,
    decreases arms, arms.len() - i,
{
    if i < arms.len() {
        let arm = arms[i as int];
        assert(numbered_arm(cx.ir, arm, lo, hi));
        assert(resolved_arm(d, arm, b, c));
        lemma_arms_hold(arms, 0, i as int);
        lemma_linked_subset(cx, f, visit_ids_arms(arms, 0), visit_ids_arm(arm));
        lemma_check_arm_total(cx, f, arm, acc, lo, hi, d, b, c);
        match check_arm(cx, f, arm, acc) {
            Err(_) => {},
            Ok(acc1) => {
                lemma_check_arms_total(cx, f, arms, i + 1, acc1, lo, hi, d, b, c);
            },
        }
    }
}

pub proof fn lemma_check_upvars_total(
    cx: Cx,
    f: Flow,
    us: Seq<Upvar>,
    i: nat,
    entry_ln: LiveNode,
    acc: Seq<DiagnosticView>,
)
    requires
        forall|k: int| 0 <= k < us.len() ==> cx.ir.vars.contains_key((#[trigger] us[k]).var),
    ensures
        check_upvars(cx, f, us, i, entry_ln, acc) is Ok,
    decreases us.len() - i,
{
    if i < us.len() {
        assert(cx.ir.vars.contains_key(us[i as int].var));
        let var = cx.ir.vars[us[i as int].var];
        let next = if us[i as int].by_ref {
            acc
        } else {
            crate::diagnostics::dead_assign(
                cx,
                f,
                crate::diagnostics::DiagnosticKind::UnusedCapture,
                seq![
                    crate::diagnostics::Part {
                        span: us[i as int].span,
                        fix: crate::diagnostics::Fix::Nothing,
                    },
                ],
                !(f.used(entry_ln, var) && f.reader(entry_ln, var).valid()),
                var,
                acc,
            )
        };
        lemma_check_upvars_total(cx, f, us, i + 1, entry_ln, next);
    }
}

pub proof fn lemma_check_params_total(
    cx: Cx,
    f: Flow,
    ps: Seq<Pat>,
    i: nat,
    entry_ln: LiveNode,
    acc: Seq<DiagnosticView>,
)
    requires
        ready(cx, f),
        params_declared(cx.ir, ps),
        entry_ln.0 < cx.ir.lnks.len(),
        good(cx, f, entry_ln),
    ensures
        check_params(cx, f, ps, i, entry_ln, acc) is Ok,
    decreases ps.len() - i,
{
    if i < ps.len() {
        let bs = bindings(ps[i as int], true);
        let role = PatRole::Param(entry_ln);
        assert forall|j: int| 0 <= j < bs.len() && (#[trigger] bs[j]).first implies checkable(
            cx,
            f,
            bs[j].id,
            role,
        ) by {
            assert(bindings(ps[i as int], true)[j].first);
        }
        lemma_check_pat_total(cx, f, bs, 0, role, acc);
        match check_pat(cx, f, bs, 0, role, acc) {
            Err(_) => {},
            Ok(acc1) => {
                lemma_check_params_total(cx, f, ps, i + 1, entry_ln, acc1);
            },
        }
    }
}

/// The analysis owes a well-formed body its findings.
pub proof fn lemma_analysis_total(body: Body, acc: Seq<DiagnosticView>)
    requires
        well_formed(body),
    ensures
        analysis(body, acc) is Ok,
    decreases body, 1nat,
{
    lemma_alloc_body(body);
    lemma_size_body(body);
    match alloc_body(body) {
        Err(_) => {},
        Ok(ir) => {
            let d = declared(body);
            match start(ir) {
                Err(_) => {},
                Ok((cx, f0)) => {
                    let e = body.value;
                    assert forall|id: u64| same_at(ir, cx.ir, id) by {}
                    lemma_numbered_carry(ir, cx.ir, e, 0, ir.lnks.len(), 0, ir.lnks.len());
                    assert(sound(cx.ir));
                    assert(f0.wf(cx.ir.lnks.len(), cx.ir.var_kinds.len()));
                    assert(ready(cx, f0));
                    assert(declared_in(cx, d));
                    assert(params_declared(cx.ir, body.params@));
                    lemma_flow_body_total(cx, f0, body, d);
                    match flow_body(cx, f0, body) {
                        Err(_) => {},
                        Ok((f, entry_ln)) => {
                            lemma_check_total(
                                cx,
                                f,
                                e,
                                acc,
                                0,
                                ir.lnks.len(),
                                d,
                                Set::empty(),
                                Set::empty(),
                            );
                            match check_expr(cx, f, e, acc) {
                                Err(_) => {},
                                Ok(acc1) => {
                                    lemma_check_upvars_total(
                                        cx,
                                        f,
                                        body.upvars@,
                                        0,
                                        entry_ln,
                                        acc1,
                                    );
                                    match check_upvars(cx, f, body.upvars@, 0, entry_ln, acc1) {
                                        Err(_) => {},
                                        Ok(acc2) => {
                                            lemma_check_params_total(
                                                cx,
                                                f,
                                                body.params@,
                                                0,
                                                entry_ln,
                                                acc2,
                                            );
                                        },
                                    }
                                },
                            }
                        },
                    }
                },
            }
        },
    }
}

} // verus!
