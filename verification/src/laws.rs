//! What holds of the analysis as a whole.

use crate::flow::{
    flow_body, flow_expr, flow_upvars, kind_of, param_vars, round_limit, start, vars_of, Access, Cx,
    Flow,
};
use crate::hir::{bindings, Binding, Body, Expr, Pat, Upvar};
use crate::ir_maps::{alloc_body, variable_of, IrState, Violation};
use crate::numbering::{
    distinct_body, lemma_alloc_body, lemma_numbered_carry, numbered, same_at, sound,
};
use crate::rwu::{no_node, LiveNode, Variable};
use crate::soundness::{
    benign, def_cell, defs_dead, lemma_access, lemma_expr_node_not_def, lemma_flow_expr,
    lemma_flow_fix, lemma_unset_bound, not_def, ready, row_grows,
};
use crate::diagnostics::{analysis, should_warn, DiagnosticView};
use crate::findings::lemma_tidy_analysis;
use crate::size::{fits, lemma_size_body};
use crate::wellformed::{lemma_analysis_total, well_formed};
use vstd::prelude::*;

verus! {

/// Merge is union. After the facts of `succ` are merged into `ln`, a
/// variable is live on entry to `ln` exactly if it was live on entry to
/// `ln` or to `succ` before; the same holds of being written and of being
/// used.
pub proof fn law_merge_is_union(f: Flow, ln: LiveNode, succ: LiveNode, var: Variable)
    requires
        ln != succ,
        ln.0 < f.rows.len(),
        var.0 < f.rows[ln.0 as int].len(),
    ensures
        f.merge_from_succ(ln, succ).reader(ln, var).valid() == (f.reader(ln, var).valid()
            || f.reader(succ, var).valid()),
        f.merge_from_succ(ln, succ).writer(ln, var).valid() == (f.writer(ln, var).valid()
            || f.writer(succ, var).valid()),
        f.merge_from_succ(ln, succ).used(ln, var) == (f.used(ln, var) || f.used(succ, var)),
{
}

/// The order of two merges does not matter to what is live. Merging the
/// entry of arm `a` and then that of arm `b` into the node of a match
/// leaves the same variables live, written and used on entry to the match
/// as merging `b` first; only the node that a fact names may differ.
pub proof fn law_merge_order(f: Flow, ln: LiveNode, a: LiveNode, b: LiveNode, var: Variable)
    requires
        ln != a,
        ln != b,
        ln.0 < f.rows.len(),
        a.0 < f.rows.len(),
        b.0 < f.rows.len(),
        var.0 < f.rows[ln.0 as int].len(),
    ensures
        f.merge_from_succ(ln, a).merge_from_succ(ln, b).reader(ln, var).valid() == f.merge_from_succ(
            ln,
            b,
        ).merge_from_succ(ln, a).reader(ln, var).valid(),
        f.merge_from_succ(ln, a).merge_from_succ(ln, b).writer(ln, var).valid() == f.merge_from_succ(
            ln,
            b,
        ).merge_from_succ(ln, a).writer(ln, var).valid(),
        f.merge_from_succ(ln, a).merge_from_succ(ln, b).used(ln, var) == f.merge_from_succ(
            ln,
            b,
        ).merge_from_succ(ln, a).used(ln, var),
        f.merge_from_succ(ln, a).merge_from_succ(ln, b).reader(ln, var).valid() == (f.reader(
            ln,
            var,
        ).valid() || f.reader(a, var).valid() || f.reader(b, var).valid()),
{
    law_merge_is_union(f, ln, a, var);
    law_merge_is_union(f, ln, b, var);
    law_merge_is_union(f.merge_from_succ(ln, a), ln, b, var);
    law_merge_is_union(f.merge_from_succ(ln, b), ln, a, var);
}

/// A merge only adds. No fact anywhere in the table goes from populated to
/// degenerate, and a reader or writer that was set stays the node it was.
pub proof fn law_merge_grows(f: Flow, ln: LiveNode, succ: LiveNode, at: LiveNode, var: Variable)
    requires
        ln.0 < f.rows.len(),
        at.0 < f.rows.len(),
        var.0 < f.rows[at.0 as int].len(),
    ensures
        f.rows[at.0 as int][var.0 as int].grows_to(
            f.merge_from_succ(ln, succ).rows[at.0 as int][var.0 as int],
        ),
        !f.rows[at.0 as int][var.0 as int].degenerate() ==> !f.merge_from_succ(
            ln,
            succ,
        ).rows[at.0 as int][var.0 as int].degenerate(),
{
}

/// The state with which the second pass starts on soundly numbered tables
/// is fit for them; the nodes of the tree come before the two special
/// nodes; and every fact is dead.
pub proof fn lemma_start(ir: IrState, e: Expr)
    requires
        sound(ir),
        numbered(ir, e, 0, ir.lnks.len()),
    ensures
        match start(ir) {
            Ok((cx, f0)) => {
                &&& ready(cx, f0)
                &&& numbered(cx.ir, e, 0, cx.s.closure_ln.0 as nat)
                &&& cx.s.closure_ln.0 == ir.lnks.len()
                &&& cx.s.exit_ln.0 == ir.lnks.len() + 1
                &&& defs_dead(cx.ir, f0)
                &&& cx.ir.live == ir.live
                &&& cx.ir.vars == ir.vars
            },
            Err(_) => true,
        },
{
    match start(ir) {
        Err(_) => {},
        Ok((cx, f0)) => {
            assert forall|id: u64| same_at(ir, cx.ir, id) by {}
            lemma_numbered_carry(ir, cx.ir, e, 0, ir.lnks.len(), 0, ir.lnks.len());
            assert(sound(cx.ir));
            assert(f0.wf(cx.ir.lnks.len(), cx.ir.var_kinds.len()));
            assert forall|id: u64|
                cx.ir.live.contains_key(id) && cx.ir.vars.contains_key(id) implies (
            #[trigger] def_cell(cx.ir, f0, id)).degenerate() by {
                assert(cx.ir.live[id].0 < ir.lnks.len());
                assert(cx.ir.vars[id].0 < ir.var_kinds.len());
            }
        },
    }
}

pub proof fn lemma_flow_upvars(cx: Cx, f: Flow, us: Seq<Upvar>, n: nat)
    requires
        ready(cx, f),
    ensures
        match flow_upvars(cx, f, us, n) {
            Ok(g) => ready(cx, g) && (defs_dead(cx.ir, f) ==> defs_dead(cx.ir, g)),
            Err(v) => benign(v),
        },
    decreases n,
{
    if n == 0 || n > us.len() {
    } else if !us[n - 1].by_ref {
        lemma_flow_upvars(cx, f, us, (n - 1) as nat);
    } else {
        match variable_of(cx.ir, us[n - 1].var) {
            Err(_) => {},
            Ok(var) => {
                let exit_ln = cx.s.exit_ln;
                assert(not_def(cx.ir, exit_ln));
                let g = f.acc(exit_ln, var, Access::ReadUse);
                assert(f.init_from_succ(exit_ln, exit_ln).rows =~= f.rows);
                assert(g.rows == f.init_from_succ(exit_ln, exit_ln).acc(
                    exit_ln,
                    var,
                    Access::ReadUse,
                ).rows);
                lemma_access(cx, f, exit_ln, exit_ln, var, Access::ReadUse);
                let h = f.init_from_succ(exit_ln, exit_ln).acc(exit_ln, var, Access::ReadUse);
                assert(ready(cx, g)) by {
                    assert(g.wf(cx.ir.lnks.len(), cx.ir.var_kinds.len())) by {
                        assert(h.wf(cx.ir.lnks.len(), cx.ir.var_kinds.len()));
                    }
                }
                if defs_dead(cx.ir, f) {
                    assert forall|id: u64|
                        cx.ir.live.contains_key(id) && cx.ir.vars.contains_key(id) implies (
                    #[trigger] def_cell(cx.ir, g, id)).degenerate() by {
                        assert(def_cell(cx.ir, h, id).degenerate());
                    }
                }
                lemma_flow_upvars(cx, g, us, (n - 1) as nat);
            },
        }
    }
}

pub proof fn lemma_vars_of(ir: IrState, bs: Seq<Binding>, i: nat, acc: Seq<Variable>)
    requires
        ir.wf(),
        forall|k: int| 0 <= k < acc.len() ==> (#[trigger] acc[k]).0 < ir.var_kinds.len(),
    ensures
        vars_of(ir, bs, i, acc) matches Ok(vars) ==> forall|k: int|
            0 <= k < vars.len() ==> (#[trigger] vars[k]).0 < ir.var_kinds.len(),
        vars_of(ir, bs, i, acc) matches Err(v) ==> v == Violation::NoVariable,
    decreases bs.len() - i,
{
    if i < bs.len() {
        if !bs[i as int].first {
            lemma_vars_of(ir, bs, i + 1, acc);
        } else {
            match variable_of(ir, bs[i as int].id) {
                Err(_) => {},
                Ok(var) => {
                    lemma_vars_of(ir, bs, i + 1, acc.push(var));
                },
            }
        }
    }
}

pub proof fn lemma_param_vars(ir: IrState, ps: Seq<Pat>, i: nat, acc: Seq<Variable>)
    requires
        ir.wf(),
        forall|k: int| 0 <= k < acc.len() ==> (#[trigger] acc[k]).0 < ir.var_kinds.len(),
    ensures
        param_vars(ir, ps, i, acc) matches Ok(vars) ==> forall|k: int|
            0 <= k < vars.len() ==> (#[trigger] vars[k]).0 < ir.var_kinds.len(),
        param_vars(ir, ps, i, acc) matches Err(v) ==> v == Violation::NoVariable,
    decreases ps.len() - i,
{
    if i < ps.len() {
        lemma_vars_of(ir, bindings(ps[i as int], true), 0, acc);
        match vars_of(ir, bindings(ps[i as int], true), 0, acc) {
            Err(_) => {},
            Ok(acc1) => {
                lemma_param_vars(ir, ps, i + 1, acc1);
            },
        }
    }
}

/// The second pass over a soundly numbered body.
pub proof fn lemma_flow_body(cx: Cx, f: Flow, body: Body)
    requires
        ready(cx, f),
        numbered(cx.ir, body.value, 0, cx.s.closure_ln.0 as nat),
        cx.s.closure_ln.0 < cx.s.exit_ln.0,
    ensures
        match flow_body(cx, f, body) {
            Ok((g, entry)) => {
                &&& ready(cx, g)
                &&& entry.0 < cx.ir.lnks.len()
                &&& defs_dead(cx.ir, f) ==> defs_dead(cx.ir, g)
            },
            Err(v) => benign(v),
        },
{
    let hi = cx.s.closure_ln.0 as nat;
    lemma_flow_upvars(cx, f, body.upvars@, body.upvars@.len());
    match flow_upvars(cx, f, body.upvars@, body.upvars@.len()) {
        Err(_) => {},
        Ok(f1) => {
            lemma_flow_expr(cx, f1, body.value, cx.s.exit_ln, 0, hi);
            match flow_expr(cx, f1, body.value, cx.s.exit_ln) {
                Err(_) => {},
                Ok((f2, entry)) => {
                    if body.kind.reentrant() {
                        lemma_param_vars(cx.ir, body.params@, 0, Seq::empty());
                        match param_vars(cx.ir, body.params@, 0, Seq::empty()) {
                            Err(_) => {},
                            Ok(vars) => {
                                assert(not_def(cx.ir, cx.s.exit_ln));
                                lemma_unset_bound(
                                    f2.rows[cx.s.exit_ln.0 as int],
                                    cx.ir.var_kinds.len(),
                                );
                                lemma_flow_fix(
                                    cx,
                                    f2,
                                    body.value,
                                    cx.s.exit_ln,
                                    entry,
                                    Some(vars),
                                    round_limit(cx),
                                    0,
                                    hi,
                                );
                            },
                        }
                    }
                },
            }
        },
    }
}

/// Every fixed point is reached. In a body in which no id occurs twice,
/// the rounds of a loop, and of a closure that can run again, never run
/// out: each round that changes anything sets one of the three fields of
/// some variable's fact at the node that collects the facts, so there are
/// at most three rounds for each variable and one more. Nor does the second
/// pass miss a live node or a capture list.
pub proof fn law_fixed_points_converge(body: Body)
    requires
        distinct_body(body),
    ensures
        match alloc_body(body) {
            Err(_) => true,
            Ok(ir) => match start(ir) {
                Err(_) => true,
                Ok((cx, f0)) => match flow_body(cx, f0, body) {
                    Ok(_) => true,
                    Err(v) => v != Violation::NotConverged && v != Violation::NoLiveNode && v
                        != Violation::NoCaptures,
                },
            },
        },
{
    lemma_alloc_body(body);
    match alloc_body(body) {
        Err(_) => {},
        Ok(ir) => {
            lemma_start(ir, body.value);
            match start(ir) {
                Err(_) => {},
                Ok((cx, f0)) => {
                    lemma_flow_body(cx, f0, body);
                },
            }
        },
    }
}

/// A definition kills what was live before it. In a body in which no id
/// occurs twice, once the facts are computed, the variable that a binding
/// of a `let` or of a match arm declares is not live on entry to the node
/// of that binding, and nothing is known to write it: no use that comes
/// before the definition reaches through it.
pub proof fn law_definition_kills(body: Body, id: u64)
    requires
        distinct_body(body),
    ensures
        match alloc_body(body) {
            Err(_) => true,
            Ok(ir) => match start(ir) {
                Err(_) => true,
                Ok((cx, f0)) => match flow_body(cx, f0, body) {
                    Err(_) => true,
                    Ok((f, _)) => ir.live.contains_key(id) && ir.vars.contains_key(id) ==> {
                        &&& f.reader(ir.live[id], ir.vars[id]) == no_node()
                        &&& f.writer(ir.live[id], ir.vars[id]) == no_node()
                        &&& kind_of(cx.ir, f.reader(ir.live[id], ir.vars[id])) is None
                    },
                },
            },
        },
{
    lemma_alloc_body(body);
    match alloc_body(body) {
        Err(_) => {},
        Ok(ir) => {
            lemma_start(ir, body.value);
            match start(ir) {
                Err(_) => {},
                Ok((cx, f0)) => {
                    lemma_flow_body(cx, f0, body);
                    match flow_body(cx, f0, body) {
                        Err(_) => {},
                        Ok((f, _)) => {
                            if ir.live.contains_key(id) && ir.vars.contains_key(id) {
                                assert(def_cell(cx.ir, f, id).degenerate());
                            }
                        },
                    }
                },
            }
        },
    }
}

/// The rounds of a loop only add. Over the walk through a soundly numbered
/// loop, first round to last, every fact at the node of the loop keeps what
/// it knew: none goes from populated to degenerate, and a reader or writer
/// that was set stays the node it was.
pub proof fn law_loop_rounds_grow(cx: Cx, f: Flow, e: Expr, succ: LiveNode, lo: nat, hi: nat)
    requires
        ready(cx, f),
        succ.0 < cx.ir.lnks.len(),
        numbered(cx.ir, e, lo, hi),
        e.kind is Loop,
    ensures
        flow_expr(cx, f, e, succ) matches Ok((g, ln)) ==> ln == cx.ir.live[e.id] && row_grows(
            f.rows[ln.0 as int],
            g.rows[ln.0 as int],
        ),
{
    let body = *e.kind->Loop_0;
    let ln = cx.ir.live[e.id];
    let inner = (ln.0 + 1) as nat;
    lemma_expr_node_not_def(cx.ir, e.id);
    let f0 = Flow {
        break_ln: f.break_ln.insert(e.id, succ),
        cont_ln: f.cont_ln.insert(e.id, ln),
        ..f.init_empty(ln, succ)
    };
    assert(crate::flow::targets_within(f0.break_ln, cx.ir.lnks.len()));
    assert(crate::flow::targets_within(f0.cont_ln, cx.ir.lnks.len()));
    lemma_flow_expr(cx, f0, body, ln, inner, hi);
    match flow_expr(cx, f0, body, ln) {
        Err(_) => {},
        Ok((f1, body_ln)) => {
            assert(f1.rows[ln.0 as int] == f0.rows[ln.0 as int]);
            lemma_unset_bound(f1.rows[ln.0 as int], cx.ir.var_kinds.len());
            lemma_flow_fix(cx, f1, body, ln, body_ln, None, round_limit(cx), inner, hi);
        },
    }
}

/// Success is owed to every well-formed body. Where no id occurs twice,
/// the body is no larger than the tables can number, every path names a
/// variable that the body declares, every `break` and `continue` names a
/// block or loop around it, and the same holds of the closures in the
/// body, the analysis gives its findings: no lookup misses, no jump is
/// unresolved, every fixed point is reached, and each walk over a loop
/// body enters it at the same node.
pub proof fn law_analysis_succeeds(body: Body, acc: Seq<DiagnosticView>)
    requires
        well_formed(body),
    ensures
        analysis(body, acc) is Ok,
{
    lemma_analysis_total(body, acc);
}

/// A body that does not fit is refused as too large, whatever else holds
/// of it.
pub proof fn law_too_large_is_refused(body: Body, acc: Seq<DiagnosticView>)
    requires
        !fits(body),
    ensures
        analysis(body, acc) == Err::<Seq<DiagnosticView>, Violation>(Violation::TooLarge),
{
    lemma_size_body(body);
}

/// Every finding names at least one place, and none is about a variable
/// whose name asks for silence: a name with exactly one leading underscore,
/// or no name at all.
pub proof fn law_findings_are_tidy(body: Body, i: int)
    ensures
        analysis(body, Seq::empty()) matches Ok(ds) ==> 0 <= i < ds.len() ==> ds[i].parts.len() > 0
            && should_warn(ds[i].name),
{
    lemma_tidy_analysis(body, Seq::empty());
}

} // verus!
