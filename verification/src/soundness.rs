//! What holds of the second pass on a soundly numbered tree: the walk over
//! an expression changes only the rows of the expression's own nodes, its
//! fixed points are reached within their bound, and the fact of a variable
//! at its own definition stays dead.

use crate::flow::{
    flow_access, flow_arm, flow_arms, flow_captures, flow_defs, flow_expr, flow_exprs, flow_fix,
    flow_opt, flow_place_components, flow_write_place, merged_row, names_within, round_limit,
    round_source, round_start, targets_within, Access, Cx, Flow,
};
use crate::hir::{bindings, Arm, Binding, Expr, ExprKind};
use crate::ir_maps::{variable_of, CaptureInfo, IrState, Violation};
use crate::numbering::{
    defs_in, node_in, numbered, numbered_arm, numbered_arms, numbered_exprs, numbered_opt, sound,
};
use crate::rwu::{LiveNode, Variable, RWU};
use vstd::prelude::*;

verus! {

/// How many fields of the first `n` facts of a row are still unset.
pub open spec fn unset_in(row: Seq<RWU>, n: nat) -> nat
    decreases n,
{
    if n == 0 || n > row.len() {
        0
    } else {
        unset_in(row, (n - 1) as nat) + row[n - 1].unset()
    }
}

pub proof fn lemma_unset_bound(row: Seq<RWU>, n: nat)
    ensures
        unset_in(row, n) <= 3 * n,
    decreases n,
{
    if n > 0 && n <= row.len() {
        lemma_unset_bound(row, (n - 1) as nat);
    }
}

/// A merge never unsets a field, and sets one where it changes a fact.
pub proof fn lemma_merge_unset(a: Seq<RWU>, b: Seq<RWU>, n: nat)
    requires
        n <= a.len(),
    ensures
        unset_in(merged_row(a, b, a.len() as int), n) <= unset_in(a, n),
        (exists|k: int| 0 <= k < n && merged_row(a, b, a.len() as int)[k] != a[k]) ==> unset_in(
            merged_row(a, b, a.len() as int),
            n,
        ) < unset_in(a, n),
    decreases n,
{
    let m = merged_row(a, b, a.len() as int);
    if n > 0 {
        lemma_merge_unset(a, b, (n - 1) as nat);
        assert(m[n - 1] == a[n - 1].union(b[n - 1]));
        assert(m[n - 1].unset() <= a[n - 1].unset());
        if m[n - 1] != a[n - 1] {
            assert(m[n - 1].unset() < a[n - 1].unset());
        }
        if exists|k: int| 0 <= k < n && m[k] != a[k] {
            let k = choose|k: int| 0 <= k < n && m[k] != a[k];
            if k < n - 1 {
                assert(exists|k: int| 0 <= k < n - 1 && m[k] != a[k]);
            }
        }
    }
}

/// The fact of the variable that binding `id` declares, at the node of the
/// binding.
pub open spec fn def_cell(ir: IrState, f: Flow, id: u64) -> RWU {
    f.rows[ir.live[id].0 as int][ir.vars[id].0 as int]
}

/// At the node of each binding, the variable that the binding declares has
/// neither reader nor writer.
pub open spec fn defs_dead(ir: IrState, f: Flow) -> bool {
    forall|id: u64|
        ir.live.contains_key(id) && ir.vars.contains_key(id) ==> (#[trigger] def_cell(
            ir,
            f,
            id,
        )).degenerate()
}

/// `ln` is not the node of a binding.
pub open spec fn not_def(ir: IrState, ln: LiveNode) -> bool {
    forall|id: u64|
        ir.live.contains_key(id) && ir.vars.contains_key(id) ==> #[trigger] ir.live[id] != ln
}

/// The rows outside `lo..hi` are the same in both states.
pub open spec fn same_outside(f: Flow, g: Flow, lo: nat, hi: nat) -> bool {
    forall|m: int| 0 <= m < f.rows.len() && !(lo <= m < hi) ==> #[trigger] g.rows[m] == f.rows[m]
}

/// The rows outside `lo..hi`, but for rows `t1` and `t2`, are the same in
/// both states.
pub open spec fn same_except(f: Flow, g: Flow, lo: nat, hi: nat, t1: int, t2: int) -> bool {
    forall|m: int|
        0 <= m < f.rows.len() && !(lo <= m < hi) && m != t1 && m != t2 ==> #[trigger] g.rows[m]
            == f.rows[m]
}

/// The tables are sound, the state fits them, and the two special nodes are
/// nodes of no tree location.
pub open spec fn ready(cx: Cx, f: Flow) -> bool {
    &&& sound(cx.ir)
    &&& f.wf(cx.ir.lnks.len(), cx.ir.var_kinds.len())
    &&& cx.s.closure_ln.0 < cx.ir.lnks.len()
    &&& cx.s.exit_ln.0 < cx.ir.lnks.len()
    &&& cx.s.closure_ln != cx.s.exit_ln
    &&& forall|id: u64|
        cx.ir.live.contains_key(id) ==> #[trigger] cx.ir.live[id] != cx.s.closure_ln
            && cx.ir.live[id] != cx.s.exit_ln
}

/// A violation that a sound numbering does not rule out.
pub open spec fn benign(v: Violation) -> bool {
    v != Violation::NotConverged && v != Violation::NoLiveNode && v != Violation::NoCaptures
}

/// What a step of the walk keeps: the state stays fit, only rows in
/// `lo..hi` change, and definitions stay dead.
pub open spec fn kept(
    cx: Cx,
    f: Flow,
    r: Result<(Flow, LiveNode), Violation>,
    lo: nat,
    hi: nat,
) -> bool {
    match r {
        Ok((g, ln)) => {
            &&& ready(cx, g)
            &&& ln.0 < cx.ir.lnks.len()
            &&& same_outside(f, g, lo, hi)
            &&& defs_dead(cx.ir, f) ==> defs_dead(cx.ir, g)
        },
        Err(v) => benign(v),
    }
}

pub proof fn lemma_expr_node_not_def(ir: IrState, id: u64)
    requires
        sound(ir),
        ir.live.contains_key(id),
        !ir.vars.contains_key(id),
    ensures
        not_def(ir, ir.live[id]),
{
}

/// Changing the row of a node that is not the node of a binding keeps
/// definitions dead.
pub proof fn lemma_row_change(cx: Cx, f: Flow, g: Flow, ln: LiveNode)
    requires
        ready(cx, f),
        g.rows.len() == f.rows.len(),
        forall|m: int| 0 <= m < f.rows.len() && m != ln.0 ==> #[trigger] g.rows[m] == f.rows[m],
        not_def(cx.ir, ln),
        defs_dead(cx.ir, f),
    ensures
        defs_dead(cx.ir, g),
{
    assert forall|id: u64| cx.ir.live.contains_key(id) && cx.ir.vars.contains_key(id) implies (
    #[trigger] def_cell(cx.ir, g, id)).degenerate() by {
        assert(cx.ir.live[id] != ln);
        assert(def_cell(cx.ir, f, id).degenerate());
        assert(g.rows[cx.ir.live[id].0 as int] == f.rows[cx.ir.live[id].0 as int]);
    }
}

/// An access at the node of an expression.
pub proof fn lemma_access(cx: Cx, f: Flow, ln: LiveNode, succ: LiveNode, var: Variable, acc: Access)
    requires
        ready(cx, f),
        ln.0 < cx.ir.lnks.len(),
        succ.0 < cx.ir.lnks.len(),
        var.0 < cx.ir.var_kinds.len(),
        not_def(cx.ir, ln),
    ensures
        ready(cx, f.init_from_succ(ln, succ).acc(ln, var, acc)),
        same_outside(f, f.init_from_succ(ln, succ).acc(ln, var, acc), ln.0 as nat, (ln.0 + 1) as nat),
        defs_dead(cx.ir, f) ==> defs_dead(cx.ir, f.init_from_succ(ln, succ).acc(ln, var, acc)),
{
    let g1 = f.init_from_succ(ln, succ);
    let g = g1.acc(ln, var, acc);
    let n = cx.ir.lnks.len();
    let v = cx.ir.var_kinds.len();
    assert(g1.wf(n, v));
    assert forall|l: int, x: int| 0 <= l < n && 0 <= x < v implies names_within(
        #[trigger] g.rows[l][x],
        n,
    ) by {
        assert(names_within(g1.rows[l][x], n));
    }
    assert(g.wf(n, v));
    if defs_dead(cx.ir, f) {
        lemma_row_change(cx, f, g, ln);
    }
}

/// A merge into the node of an expression.
pub proof fn lemma_merge(cx: Cx, f: Flow, ln: LiveNode, succ: LiveNode)
    requires
        ready(cx, f),
        ln.0 < cx.ir.lnks.len(),
        succ.0 < cx.ir.lnks.len(),
        not_def(cx.ir, ln),
    ensures
        ready(cx, f.merge_from_succ(ln, succ)),
        same_outside(f, f.merge_from_succ(ln, succ), ln.0 as nat, (ln.0 + 1) as nat),
        defs_dead(cx.ir, f) ==> defs_dead(cx.ir, f.merge_from_succ(ln, succ)),
{
    let g = f.merge_from_succ(ln, succ);
    let n = cx.ir.lnks.len();
    let v = cx.ir.var_kinds.len();
    assert forall|l: int, x: int| 0 <= l < n && 0 <= x < v implies names_within(
        #[trigger] g.rows[l][x],
        n,
    ) by {
        assert(names_within(f.rows[l][x], n));
        assert(names_within(f.rows[succ.0 as int][x], n));
    }
    assert(g.wf(n, v));
    if defs_dead(cx.ir, f) {
        lemma_row_change(cx, f, g, ln);
    }
}

/// A definition at the node of a binding.
pub proof fn lemma_define_binding(cx: Cx, f: Flow, id: u64, succ: LiveNode)
    requires
        ready(cx, f),
        cx.ir.live.contains_key(id),
        cx.ir.vars.contains_key(id),
        succ.0 < cx.ir.lnks.len(),
    ensures
        ready(cx, f.init_from_succ(cx.ir.live[id], succ).define(cx.ir.live[id], cx.ir.vars[id])),
        same_outside(
            f,
            f.init_from_succ(cx.ir.live[id], succ).define(cx.ir.live[id], cx.ir.vars[id]),
            cx.ir.live[id].0 as nat,
            (cx.ir.live[id].0 + 1) as nat,
        ),
        defs_dead(cx.ir, f) ==> defs_dead(
            cx.ir,
            f.init_from_succ(cx.ir.live[id], succ).define(cx.ir.live[id], cx.ir.vars[id]),
        ),
{
    let ln = cx.ir.live[id];
    let var = cx.ir.vars[id];
    let g1 = f.init_from_succ(ln, succ);
    let g = g1.define(ln, var);
    let n = cx.ir.lnks.len();
    let v = cx.ir.var_kinds.len();
    assert(g1.wf(n, v));
    assert forall|l: int, x: int| 0 <= l < n && 0 <= x < v implies names_within(
        #[trigger] g.rows[l][x],
        n,
    ) by {
        assert(names_within(g1.rows[l][x], n));
    }
    assert(g.wf(n, v));
    if defs_dead(cx.ir, f) {
        assert forall|other: u64|
            cx.ir.live.contains_key(other) && cx.ir.vars.contains_key(other) implies (
        #[trigger] def_cell(cx.ir, g, other)).degenerate() by {
            if cx.ir.live[other] == ln {
                assert(other == id);
            } else {
                assert(def_cell(cx.ir, f, other).degenerate());
                assert(g.rows[cx.ir.live[other].0 as int] == f.rows[cx.ir.live[other].0 as int]);
            }
        }
    }
}

pub proof fn lemma_same_outside_twice(f: Flow, g: Flow, h: Flow, lo: nat, hi: nat)
    requires
        g.rows.len() == f.rows.len(),
        same_outside(f, g, lo, hi),
        same_outside(g, h, lo, hi),
    ensures
        same_outside(f, h, lo, hi),
{
    assert forall|m: int| 0 <= m < f.rows.len() && !(lo <= m < hi) implies #[trigger] h.rows[m]
        == f.rows[m] by {
        assert(g.rows[m] == f.rows[m]);
    }
}

pub proof fn lemma_same_outside_wider(f: Flow, g: Flow, lo: nat, hi: nat, lo2: nat, hi2: nat)
    requires
        same_outside(f, g, lo, hi),
        lo2 <= lo,
        hi <= hi2,
    ensures
        same_outside(f, g, lo2, hi2),
{
}

/// One step of the walk after another keeps what each of them keeps.
pub proof fn lemma_kept_then(
    cx: Cx,
    f: Flow,
    g: Flow,
    r: Result<(Flow, LiveNode), Violation>,
    lo: nat,
    hi: nat,
)
    requires
        ready(cx, f),
        ready(cx, g),
        same_outside(f, g, lo, hi),
        defs_dead(cx.ir, f) ==> defs_dead(cx.ir, g),
        kept(cx, g, r, lo, hi),
    ensures
        kept(cx, f, r, lo, hi),
{
    match r {
        Ok((h, _)) => {
            lemma_same_outside_twice(f, g, h, lo, hi);
        },
        Err(_) => {},
    }
}

pub proof fn lemma_flow_access(
    cx: Cx,
    f: Flow,
    id: u64,
    var_hid: u64,
    succ: LiveNode,
    acc: Access,
    lo: nat,
    hi: nat,
)
    requires
        ready(cx, f),
        succ.0 < cx.ir.lnks.len(),
        node_in(cx.ir, id, lo, hi),
    ensures
        kept(cx, f, flow_access(cx, f, id, var_hid, succ, acc), lo, hi),
{
    let ln = cx.ir.live[id];
    lemma_expr_node_not_def(cx.ir, id);
    match variable_of(cx.ir, var_hid) {
        Err(_) => {},
        Ok(var) => {
            lemma_access(cx, f, ln, succ, var, acc);
            let g = f.init_from_succ(ln, succ).acc(ln, var, acc);
            lemma_same_outside_wider(f, g, ln.0 as nat, (ln.0 + 1) as nat, lo, hi);
        },
    }
}

pub proof fn lemma_flow_defs(cx: Cx, f: Flow, bs: Seq<Binding>, i: nat, succ: LiveNode, lo: nat, hi: nat)
    requires
        ready(cx, f),
        succ.0 < cx.ir.lnks.len(),
        defs_in(cx.ir, bs, lo, hi),
    ensures
        kept(cx, f, flow_defs(cx, f, bs, i, succ), lo, hi),
    decreases bs.len() - i,
{
    if i >= bs.len() {
    } else if !bs[i as int].first {
        lemma_flow_defs(cx, f, bs, i + 1, succ, lo, hi);
    } else {
        let id = bs[i as int].id;
        let ln = cx.ir.live[id];
        let var = cx.ir.vars[id];
        lemma_define_binding(cx, f, id, succ);
        let g = f.init_from_succ(ln, succ).define(ln, var);
        lemma_same_outside_wider(f, g, ln.0 as nat, (ln.0 + 1) as nat, lo, hi);
        lemma_flow_defs(cx, g, bs, i + 1, ln, lo, hi);
        lemma_kept_then(cx, f, g, flow_defs(cx, g, bs, i + 1, ln), lo, hi);
    }
}

pub proof fn lemma_flow_captures(
    cx: Cx,
    f: Flow,
    cs: Seq<CaptureInfo>,
    n: nat,
    succ: LiveNode,
    lo: nat,
    hi: nat,
)
    requires
        ready(cx, f),
        succ.0 < cx.ir.lnks.len(),
        n <= cs.len(),
        forall|i: int| 0 <= i < cs.len() ==> lo <= (#[trigger] cs[i]).ln.0 < hi,
        forall|i: int| 0 <= i < cs.len() ==> (#[trigger] cs[i]).ln.0 < cx.ir.lnks.len(),
        forall|i: int| 0 <= i < cs.len() ==> not_def(cx.ir, (#[trigger] cs[i]).ln),
    ensures
        kept(cx, f, flow_captures(cx, f, cs, n, succ), lo, hi),
    decreases n,
{
    if n > 0 {
        let cap = cs[n - 1];
        match variable_of(cx.ir, cap.var_hid) {
            Err(_) => {},
            Ok(var) => {
                lemma_access(cx, f, cap.ln, succ, var, Access::ReadUse);
                let g = f.init_from_succ(cap.ln, succ).acc(cap.ln, var, Access::ReadUse);
                lemma_same_outside_wider(f, g, cap.ln.0 as nat, (cap.ln.0 + 1) as nat, lo, hi);
                lemma_flow_captures(cx, g, cs, (n - 1) as nat, cap.ln, lo, hi);
                lemma_kept_then(
                    cx,
                    f,
                    g,
                    flow_captures(cx, g, cs, (n - 1) as nat, cap.ln),
                    lo,
                    hi,
                );
            },
        }
    }
}

/// Every fact of row `b` knows what the fact of row `a` at its place knows:
/// no fact went from populated to degenerate, and no reader or writer that
/// was set changed or went away.
pub open spec fn row_grows(a: Seq<RWU>, b: Seq<RWU>) -> bool {
    forall|x: int| 0 <= x < a.len() ==> (#[trigger] a[x]).grows_to(b[x])
}

/// What a step of the walk that gives no node keeps.
pub open spec fn kept_flow(cx: Cx, f: Flow, r: Result<Flow, Violation>, lo: nat, hi: nat) -> bool {
    match r {
        Ok(g) => {
            &&& ready(cx, g)
            &&& same_outside(f, g, lo, hi)
            &&& defs_dead(cx.ir, f) ==> defs_dead(cx.ir, g)
        },
        Err(v) => benign(v),
    }
}

/// What a fixed point keeps: as a step of the walk, but that the rows of
/// the two nodes it merges into may change too.
pub open spec fn kept_fix(
    cx: Cx,
    f: Flow,
    r: Result<Flow, Violation>,
    lo: nat,
    hi: nat,
    t1: int,
    t2: int,
) -> bool {
    match r {
        Ok(g) => {
            &&& ready(cx, g)
            &&& same_except(f, g, lo, hi, t1, t2)
            &&& defs_dead(cx.ir, f) ==> defs_dead(cx.ir, g)
        },
        Err(v) => benign(v),
    }
}

/// Copying the facts of a successor into the node of an expression.
pub proof fn lemma_init(cx: Cx, f: Flow, ln: LiveNode, succ: LiveNode)
    requires
        ready(cx, f),
        ln.0 < cx.ir.lnks.len(),
        succ.0 < cx.ir.lnks.len(),
        not_def(cx.ir, ln),
    ensures
        ready(cx, f.init_from_succ(ln, succ)),
        same_outside(f, f.init_from_succ(ln, succ), ln.0 as nat, (ln.0 + 1) as nat),
        defs_dead(cx.ir, f) ==> defs_dead(cx.ir, f.init_from_succ(ln, succ)),
{
    let g = f.init_from_succ(ln, succ);
    if defs_dead(cx.ir, f) {
        lemma_row_change(cx, f, g, ln);
    }
}

/// A change that leaves every row as it is keeps everything.
pub proof fn lemma_rows_same(cx: Cx, f: Flow, g: Flow, lo: nat, hi: nat)
    requires
        ready(cx, g),
        g.rows == f.rows,
    ensures
        same_outside(f, g, lo, hi),
        defs_dead(cx.ir, f) ==> defs_dead(cx.ir, g),
{
    if defs_dead(cx.ir, f) {
        assert forall|id: u64| cx.ir.live.contains_key(id) && cx.ir.vars.contains_key(id) implies (
        #[trigger] def_cell(cx.ir, g, id)).degenerate() by {
            assert(def_cell(cx.ir, f, id).degenerate());
        }
    }
}

/// Defining variables at one of the special nodes.
pub proof fn lemma_define_all(cx: Cx, f: Flow, ln: LiveNode, vars: Seq<Variable>, i: nat)
    requires
        ready(cx, f),
        ln.0 < cx.ir.lnks.len(),
        not_def(cx.ir, ln),
        forall|k: int| 0 <= k < vars.len() ==> (#[trigger] vars[k]).0 < cx.ir.var_kinds.len(),
    ensures
        ready(cx, f.define_all(ln, vars, i)),
        same_outside(f, f.define_all(ln, vars, i), ln.0 as nat, (ln.0 + 1) as nat),
        defs_dead(cx.ir, f) ==> defs_dead(cx.ir, f.define_all(ln, vars, i)),
    decreases vars.len() - i,
{
    if i < vars.len() {
        let g = f.define(ln, vars[i as int]);
        let n = cx.ir.lnks.len();
        let v = cx.ir.var_kinds.len();
        assert forall|l: int, x: int| 0 <= l < n && 0 <= x < v implies names_within(
            #[trigger] g.rows[l][x],
            n,
        ) by {
            assert(names_within(f.rows[l][x], n));
        }
        assert(g.wf(n, v));
        if defs_dead(cx.ir, f) {
            lemma_row_change(cx, f, g, ln);
        }
        lemma_define_all(cx, g, ln, vars, i + 1);
        lemma_same_outside_twice(
            f,
            g,
            g.define_all(ln, vars, i + 1),
            ln.0 as nat,
            (ln.0 + 1) as nat,
        );
    }
}

/// The walk over a soundly numbered expression changes only rows of the
/// expression's own nodes, keeps the state fit and definitions dead, and
/// reaches every fixed point within its bound.
pub proof fn lemma_flow_expr(cx: Cx, f: Flow, e: Expr, succ: LiveNode, lo: nat, hi: nat)
    requires
        ready(cx, f),
        succ.0 < cx.ir.lnks.len(),
        numbered(cx.ir, e, lo, hi),
    ensures
        kept(cx, f, flow_expr(cx, f, e, succ), lo, hi),
    decreases e, 0nat,
{
    match e.kind {
        ExprKind::Local(var) => {
            lemma_flow_access(cx, f, e.id, var, succ, Access::ReadUse, lo, hi);
        },
        ExprKind::Compound(es, diverges) => {
            let s = if diverges {
                cx.s.exit_ln
            } else {
                succ
            };
            lemma_flow_exprs(cx, f, es@, es@.len(), s, lo, hi);
        },
        ExprKind::Lazy(l, r) => {
            lemma_flow_expr(cx, f, *r, succ, lo, hi);
            match flow_expr(cx, f, *r, succ) {
                Err(_) => {},
                Ok((f1, r_succ)) => {
                    let ln = cx.ir.live[e.id];
                    lemma_expr_node_not_def(cx.ir, e.id);
                    lemma_init(cx, f1, ln, succ);
                    let f2 = f1.init_from_succ(ln, succ);
                    lemma_merge(cx, f2, ln, r_succ);
                    let f3 = f2.merge_from_succ(ln, r_succ);
                    lemma_same_outside_twice(f1, f2, f3, ln.0 as nat, (ln.0 + 1) as nat);
                    lemma_same_outside_wider(f1, f3, ln.0 as nat, (ln.0 + 1) as nat, lo, hi);
                    lemma_same_outside_twice(f, f1, f3, lo, hi);
                    lemma_flow_expr(cx, f3, *l, ln, lo, hi);
                    lemma_kept_then(cx, f, f3, flow_expr(cx, f3, *l, ln), lo, hi);
                },
            }
        },
        ExprKind::Assign(l, r) => {
            lemma_flow_write_place(cx, f, *l, succ, Access::Write, lo, hi);
            match flow_write_place(cx, f, *l, succ, Access::Write) {
                Err(_) => {},
                Ok((f1, s1)) => {
                    lemma_flow_place_components(cx, f1, *l, s1, lo, hi);
                    match flow_place_components(cx, f1, *l, s1) {
                        Err(_) => {},
                        Ok((f2, s2)) => {
                            lemma_same_outside_twice(f, f1, f2, lo, hi);
                            lemma_flow_expr(cx, f2, *r, s2, lo, hi);
                            lemma_kept_then(cx, f, f2, flow_expr(cx, f2, *r, s2), lo, hi);
                        },
                    }
                },
            }
        },
        ExprKind::AssignOp(l, r) => {
            lemma_flow_write_place(cx, f, *l, succ, Access::ReadWrite, lo, hi);
            match flow_write_place(cx, f, *l, succ, Access::ReadWrite) {
                Err(_) => {},
                Ok((f1, s1)) => {
                    lemma_flow_expr(cx, f1, *r, s1, lo, hi);
                    match flow_expr(cx, f1, *r, s1) {
                        Err(_) => {},
                        Ok((f2, s2)) => {
                            lemma_same_outside_twice(f, f1, f2, lo, hi);
                            lemma_flow_place_components(cx, f2, *l, s2, lo, hi);
                            lemma_kept_then(
                                cx,
                                f,
                                f2,
                                flow_place_components(cx, f2, *l, s2),
                                lo,
                                hi,
                            );
                        },
                    }
                },
            }
        },
        ExprKind::Let(pat, init) => {
            lemma_flow_opt(cx, f, init, succ, lo, hi);
            match flow_opt(cx, f, init, succ) {
                Err(_) => {},
                Ok((f1, s1)) => {
                    lemma_flow_defs(cx, f1, bindings(pat, true), 0, s1, lo, hi);
                    lemma_kept_then(
                        cx,
                        f,
                        f1,
                        flow_defs(cx, f1, bindings(pat, true), 0, s1),
                        lo,
                        hi,
                    );
                },
            }
        },
        ExprKind::Block(es, targeted) => {
            let f0 = if targeted {
                Flow { break_ln: f.break_ln.insert(e.id, succ), ..f }
            } else {
                f
            };
            assert(targets_within(f0.break_ln, cx.ir.lnks.len()));
            lemma_rows_same(cx, f, f0, lo, hi);
            lemma_flow_exprs(cx, f0, es@, es@.len(), succ, lo, hi);
            lemma_kept_then(cx, f, f0, flow_exprs(cx, f0, es@, es@.len(), succ), lo, hi);
        },
        ExprKind::Loop(body) => {
            let ln = cx.ir.live[e.id];
            let inner = (ln.0 + 1) as nat;
            lemma_expr_node_not_def(cx.ir, e.id);
            let f0 = Flow {
                break_ln: f.break_ln.insert(e.id, succ),
                cont_ln: f.cont_ln.insert(e.id, ln),
                ..f.init_empty(ln, succ)
            };
            assert(targets_within(f0.break_ln, cx.ir.lnks.len()));
            assert(targets_within(f0.cont_ln, cx.ir.lnks.len()));
            lemma_rows_same(cx, f, f0, lo, hi);
            lemma_flow_expr(cx, f0, *body, ln, inner, hi);
            match flow_expr(cx, f0, *body, ln) {
                Err(_) => {},
                Ok((f1, body_ln)) => {
                    lemma_unset_bound(f1.rows[ln.0 as int], cx.ir.var_kinds.len());
                    lemma_flow_fix(cx, f1, *body, ln, body_ln, None, round_limit(cx), inner, hi);
                    match flow_fix(cx, f1, *body, ln, body_ln, None, round_limit(cx)) {
                        Err(_) => {},
                        Ok(f2) => {
                            assert forall|m: int|
                                0 <= m < f.rows.len() && !(lo <= m < hi) implies #[trigger] f2.rows[m]
                                == f.rows[m] by {
                                assert(f0.rows[m] == f.rows[m]);
                                assert(f1.rows[m] == f0.rows[m]);
                                assert(f2.rows[m] == f1.rows[m]);
                            }
                        },
                    }
                },
            }
        },
        ExprKind::Match(scrutinee, arms) => {
            let ln = cx.ir.live[e.id];
            lemma_expr_node_not_def(cx.ir, e.id);
            let f0 = f.init_empty(ln, succ);
            lemma_rows_same(cx, f, f0, lo, hi);
            lemma_flow_arms(cx, f0, arms@, 0, ln, succ, lo, hi);
            match flow_arms(cx, f0, arms@, 0, ln, succ) {
                Err(_) => {},
                Ok(f1) => {
                    lemma_same_outside_twice(f, f0, f1, lo, hi);
                    lemma_flow_expr(cx, f1, *scrutinee, ln, lo, hi);
                    lemma_kept_then(cx, f, f1, flow_expr(cx, f1, *scrutinee, ln), lo, hi);
                },
            }
        },
        ExprKind::Ret(value) => {
            lemma_flow_opt(cx, f, value, cx.s.exit_ln, lo, hi);
        },
        ExprKind::Break(target, value) => {
            match target {
                None => {},
                Some(id) => {
                    if f.break_ln.contains_key(id) {
                        lemma_flow_opt(cx, f, value, f.break_ln[id], lo, hi);
                    }
                },
            }
        },
        ExprKind::Continue(target) => {
            match target {
                None => {},
                Some(id) => {
                    if f.cont_ln.contains_key(id) {
                        lemma_rows_same(cx, f, f, lo, hi);
                    }
                },
            }
        },
        ExprKind::Closure(_) => {
            let cs = cx.ir.caps[e.id];
            assert forall|i: int| 0 <= i < cs.len() implies not_def(cx.ir, (#[trigger] cs[i]).ln) by {
                assert(cx.ir.caps[e.id][i].ln == cs[i].ln);
            }
            assert forall|i: int| 0 <= i < cs.len() implies (#[trigger] cs[i]).ln.0
                < cx.ir.lnks.len() by {
                assert(cx.ir.caps[e.id][i].ln == cs[i].ln);
            }
            lemma_flow_captures(cx, f, cs, cs.len(), succ, lo, hi);
        },
    }
}

pub proof fn lemma_flow_opt(cx: Cx, f: Flow, o: Option<Box<Expr>>, succ: LiveNode, lo: nat, hi: nat)
    requires
        ready(cx, f),
        succ.0 < cx.ir.lnks.len(),
        numbered_opt(cx.ir, o, lo, hi),
    ensures
        kept(cx, f, flow_opt(cx, f, o, succ), lo, hi),
    decreases o, 0nat,
{
    match o {
        Some(e) => lemma_flow_expr(cx, f, *e, succ, lo, hi),
        None => {
            lemma_rows_same(cx, f, f, lo, hi);
        },
    }
}

pub proof fn lemma_flow_write_place(
    cx: Cx,
    f: Flow,
    l: Expr,
    succ: LiveNode,
    acc: Access,
    lo: nat,
    hi: nat,
)
    requires
        ready(cx, f),
        succ.0 < cx.ir.lnks.len(),
        numbered(cx.ir, l, lo, hi),
    ensures
        kept(cx, f, flow_write_place(cx, f, l, succ, acc), lo, hi),
{
    match l.kind {
        ExprKind::Local(var) => {
            lemma_flow_access(cx, f, l.id, var, succ, acc, lo, hi);
        },
        _ => {
            lemma_rows_same(cx, f, f, lo, hi);
        },
    }
}

pub proof fn lemma_flow_place_components(cx: Cx, f: Flow, l: Expr, succ: LiveNode, lo: nat, hi: nat)
    requires
        ready(cx, f),
        succ.0 < cx.ir.lnks.len(),
        numbered(cx.ir, l, lo, hi),
    ensures
        kept(cx, f, flow_place_components(cx, f, l, succ), lo, hi),
    decreases l, 1nat,
{
    match l.kind {
        ExprKind::Local(_) => {
            lemma_rows_same(cx, f, f, lo, hi);
        },
        _ => {
            lemma_flow_expr(cx, f, l, succ, lo, hi);
        },
    }
}

pub proof fn lemma_flow_exprs(cx: Cx, f: Flow, es: Seq<Expr>, n: nat, succ: LiveNode, lo: nat, hi: nat)
    requires
        ready(cx, f),
        succ.0 < cx.ir.lnks.len(),
        numbered_exprs(cx.ir, es, lo, hi),
    ensures
        kept(cx, f, flow_exprs(cx, f, es, n, succ), lo, hi),
    decreases es, n,
{
    if n == 0 || n > es.len() {
        lemma_rows_same(cx, f, f, lo, hi);
    } else {
        assert(numbered(cx.ir, es[n - 1], lo, hi));
        lemma_flow_expr(cx, f, es[n - 1], succ, lo, hi);
        match flow_expr(cx, f, es[n - 1], succ) {
            Err(_) => {},
            Ok((f1, s1)) => {
                lemma_flow_exprs(cx, f1, es, (n - 1) as nat, s1, lo, hi);
                lemma_kept_then(cx, f, f1, flow_exprs(cx, f1, es, (n - 1) as nat, s1), lo, hi);
            },
        }
    }
}

pub proof fn lemma_flow_arm(cx: Cx, f: Flow, arm: Arm, ln: LiveNode, succ: LiveNode, lo: nat, hi: nat)
    requires
        ready(cx, f),
        succ.0 < cx.ir.lnks.len(),
        lo <= ln.0 < hi,
        ln.0 < cx.ir.lnks.len(),
        not_def(cx.ir, ln),
        numbered_arm(cx.ir, arm, lo, hi),
    ensures
        kept_flow(cx, f, flow_arm(cx, f, arm, ln, succ), lo, hi),
    decreases arm, 0nat,
{
    lemma_flow_expr(cx, f, arm.body, succ, lo, hi);
    match flow_expr(cx, f, arm.body, succ) {
        Err(_) => {},
        Ok((f1, body_succ)) => {
            let guarded = match arm.guard {
                Some(g) => flow_expr(cx, f1, g, body_succ),
                None => Ok((f1, body_succ)),
            };
            match arm.guard {
                Some(g) => {
                    lemma_flow_expr(cx, f1, g, body_succ, lo, hi);
                },
                None => {
                    lemma_rows_same(cx, f1, f1, lo, hi);
                },
            }
            match guarded {
                Err(_) => {},
                Ok((f2, guard_succ)) => {
                    lemma_same_outside_twice(f, f1, f2, lo, hi);
                    lemma_flow_defs(cx, f2, bindings(arm.pat, true), 0, guard_succ, lo, hi);
                    match flow_defs(cx, f2, bindings(arm.pat, true), 0, guard_succ) {
                        Err(_) => {},
                        Ok((f3, arm_succ)) => {
                            lemma_same_outside_twice(f, f2, f3, lo, hi);
                            lemma_merge(cx, f3, ln, arm_succ);
                            let f4 = f3.merge_from_succ(ln, arm_succ);
                            lemma_same_outside_wider(
                                f3,
                                f4,
                                ln.0 as nat,
                                (ln.0 + 1) as nat,
                                lo,
                                hi,
                            );
                            lemma_same_outside_twice(f, f3, f4, lo, hi);
                        },
                    }
                },
            }
        },
    }
}

pub proof fn lemma_flow_arms(
    cx: Cx,
    f: Flow,
    arms: Seq<Arm>,
    i: nat,
    ln: LiveNode,
    succ: LiveNode,
    lo: nat,
    hi: nat,
)
    requires
        ready(cx, f),
        succ.0 < cx.ir.lnks.len(),
        lo <= ln.0 < hi,
        ln.0 < cx.ir.lnks.len(),
        not_def(cx.ir, ln),
        numbered_arms(cx.ir, arms, lo, hi),
    ensures
        kept_flow(cx, f, flow_arms(cx, f, arms, i, ln, succ), lo, hi),
    decreases arms, arms.len() - i,
{
    if i >= arms.len() {
        lemma_rows_same(cx, f, f, lo, hi);
    } else {
        assert(numbered_arm(cx.ir, arms[i as int], lo, hi));
        lemma_flow_arm(cx, f, arms[i as int], ln, succ, lo, hi);
        match flow_arm(cx, f, arms[i as int], ln, succ) {
            Err(_) => {},
            Ok(f1) => {
                lemma_flow_arms(cx, f1, arms, i + 1, ln, succ, lo, hi);
                match flow_arms(cx, f1, arms, i + 1, ln, succ) {
                    Err(_) => {},
                    Ok(f2) => {
                        lemma_same_outside_twice(f, f1, f2, lo, hi);
                    },
                }
            },
        }
    }
}

/// A fixed point over a soundly numbered body is reached before its rounds
/// run out, whenever there are at least as many rounds as fields still
/// unset in the row that collects the facts.
pub proof fn lemma_flow_fix(
    cx: Cx,
    f: Flow,
    body: Expr,
    target: LiveNode,
    entry: LiveNode,
    reentry: Option<Seq<Variable>>,
    fuel: nat,
    lo: nat,
    hi: nat,
)
    requires
        ready(cx, f),
        numbered(cx.ir, body, lo, hi),
        target.0 < cx.ir.lnks.len(),
        entry.0 < cx.ir.lnks.len(),
        !(lo <= target.0 < hi),
        not_def(cx.ir, target),
        reentry matches Some(vars) ==> {
            &&& forall|k: int| 0 <= k < vars.len() ==> (#[trigger] vars[k]).0 < cx.ir.var_kinds.len()
            &&& !(lo <= cx.s.closure_ln.0 < hi)
            &&& cx.s.closure_ln != target
        },
        unset_in(f.rows[target.0 as int], cx.ir.var_kinds.len()) <= fuel,
    ensures
        kept_fix(
            cx,
            f,
            flow_fix(cx, f, body, target, entry, reentry, fuel),
            lo,
            hi,
            target.0 as int,
            round_source(cx, target, reentry).0 as int,
        ),
        flow_fix(cx, f, body, target, entry, reentry, fuel) matches Ok(g) ==> row_grows(
            f.rows[target.0 as int],
            g.rows[target.0 as int],
        ),
    decreases body, fuel + 1,
{
    let v = cx.ir.var_kinds.len();
    let closure_ln = cx.s.closure_ln;
    let f1 = round_start(cx, f, entry, reentry);
    let source = round_source(cx, entry, reentry);
    let t2 = round_source(cx, target, reentry).0 as int;
    match reentry {
        None => {
            lemma_rows_same(cx, f, f1, lo, hi);
        },
        Some(vars) => {
            assert(not_def(cx.ir, closure_ln));
            lemma_init(cx, f, closure_ln, entry);
            let g = f.init_from_succ(closure_ln, entry);
            lemma_define_all(cx, g, closure_ln, vars, 0);
            lemma_same_outside_twice(f, g, f1, closure_ln.0 as nat, (closure_ln.0 + 1) as nat);
        },
    }
    assert(ready(cx, f1));
    assert(defs_dead(cx.ir, f) ==> defs_dead(cx.ir, f1));
    assert(same_except(f, f1, lo, hi, target.0 as int, t2));
    assert(f1.rows[target.0 as int] == f.rows[target.0 as int]);
    lemma_merge(cx, f1, target, source);
    let f2 = f1.merge_from_succ(target, source);
    if f2.rows == f1.rows {
    } else {
        assert(target != source);
        let a = f1.rows[target.0 as int];
        let b = f1.rows[source.0 as int];
        let m = merged_row(a, b, a.len() as int);
        assert(f2.rows[target.0 as int] == m);
        assert(m != a) by {
            if m == a {
                assert(f2.rows =~= f1.rows);
            }
        }
        assert(!(m =~= a));
        lemma_merge_unset(a, b, v);
        assert(unset_in(m, v) < unset_in(a, v));
        assert(fuel > 0);
        lemma_flow_expr(cx, f2, body, target, lo, hi);
        match flow_expr(cx, f2, body, target) {
            Err(_) => {},
            Ok((f3, again)) => {
                if again == entry {
                    assert(f3.rows[target.0 as int] == f2.rows[target.0 as int]);
                    lemma_flow_fix(cx, f3, body, target, entry, reentry, (fuel - 1) as nat, lo, hi);
                    match flow_fix(cx, f3, body, target, entry, reentry, (fuel - 1) as nat) {
                        Err(_) => {},
                        Ok(f4) => {
                            assert forall|x: int| 0 <= x < a.len() implies (#[trigger] a[x]).grows_to(
                                f4.rows[target.0 as int][x],
                            ) by {
                                assert(m[x] == a[x].union(b[x]));
                                assert(m[x].grows_to(f4.rows[target.0 as int][x]));
                            }
                            assert forall|k: int|
                                0 <= k < f.rows.len() && !(lo <= k < hi) && k != target.0 && k
                                    != t2 implies #[trigger] f4.rows[k] == f.rows[k] by {
                                assert(f1.rows[k] == f.rows[k]);
                                assert(f2.rows[k] == f1.rows[k]);
                                assert(f3.rows[k] == f2.rows[k]);
                                assert(f4.rows[k] == f3.rows[k]);
                            }
                        },
                    }
                }
            },
        }
    }
}

} // verus!
