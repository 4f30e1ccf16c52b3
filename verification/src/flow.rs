//! The liveness state as a mathematical value, and the rules by which each
//! construct of the tree turns the state after it into the state before it.
//!
//! The walk goes against the order of execution: a rule takes the live node
//! that stands for what happens after a construct and gives the live node
//! that stands for its entry.

use crate::hir::{bindings, Arm, Binding, Body, Expr, ExprKind, Pat, Upvar};
use crate::ir_maps::{live_node_of, variable_of, CaptureInfo, IrState, LiveNodeKind, Violation};
use crate::rwu::{no_node, LiveNode, Variable, INV_INV_TRUE, RWU};
use vstd::prelude::*;

verus! {

/// The two live nodes that every body has.
#[derive(Clone, Copy, PartialEq, Eq, Structural, Debug)]
pub struct Specials {
    /// The point before a closure is entered again and after it has run.
    /// Used for closures that can be called more than once.
    pub closure_ln: LiveNode,
    /// Every exit from the body, by `return` or otherwise.
    pub exit_ln: LiveNode,
}

/// What an expression does to a variable.
#[derive(Clone, Copy, PartialEq, Eq, Structural, Debug)]
pub enum Access {
    /// Reads it, as a use of its value.
    ReadUse,
    /// Overwrites it.
    Write,
    /// Overwrites it with a value computed from it.
    ReadWrite,
}

impl Access {
    pub open spec fn reads(self) -> bool {
        self != Access::Write
    }

    pub open spec fn writes(self) -> bool {
        self != Access::ReadUse
    }

    pub open spec fn uses(self) -> bool {
        self == Access::ReadUse
    }
}

/// The tables of the first pass and the two special nodes: what the walk
/// reads and never changes.
pub struct Cx {
    pub ir: IrState,
    pub s: Specials,
}

/// The state of the walk.
pub struct Flow {
    /// `rows[ln][var]`: the fact of `var` on entry to `ln`.
    pub rows: Seq<Seq<RWU>>,
    /// For each live node, the node whose entry state is its exit state.
    pub successors: Seq<LiveNode>,
    /// Where a `break` out of a loop or block goes.
    pub break_ln: Map<u64, LiveNode>,
    /// Where a `continue` of a loop goes.
    pub cont_ln: Map<u64, LiveNode>,
}

/// Row `a` with its first `upto` facts replaced by their union with those of
/// row `b`.
pub open spec fn merged_row(a: Seq<RWU>, b: Seq<RWU>, upto: int) -> Seq<RWU> {
    Seq::new(
        a.len(),
        |v: int|
            if v < upto {
                a[v].union(b[v])
            } else {
                a[v]
            },
    )
}

/// Row `a` with its first `upto` facts replaced by those of row `b`.
pub open spec fn copied_row(a: Seq<RWU>, b: Seq<RWU>, upto: int) -> Seq<RWU> {
    Seq::new(
        a.len(),
        |v: int|
            if v < upto {
                b[v]
            } else {
                a[v]
            },
    )
}

/// The fact of a variable after an access at `ln`. A write forgets the
/// reader; a read sets it afterwards, so that an access that does both
/// leaves the variable read here.
pub open spec fn accessed(rwu: RWU, ln: LiveNode, acc: Access) -> RWU {
    RWU {
        reader: if acc.reads() {
            ln
        } else if acc.writes() {
            no_node()
        } else {
            rwu.reader
        },
        writer: if acc.writes() {
            ln
        } else {
            rwu.writer
        },
        used: rwu.used || acc.uses(),
    }
}

/// The reader and the writer of a fact are among the first `n` nodes, where
/// there is one.
pub open spec fn names_within(rwu: RWU, n: nat) -> bool {
    &&& rwu.reader.valid() ==> rwu.reader.0 < n
    &&& rwu.writer.valid() ==> rwu.writer.0 < n
}

/// Every target of a jump is among the first `n` nodes.
pub open spec fn targets_within(m: Map<u64, LiveNode>, n: nat) -> bool {
    forall|id: u64| m.contains_key(id) ==> (#[trigger] m[id]).0 < n
}

impl Flow {
    /// The state has `n` rows of `v` facts, and every node it names exists.
    pub open spec fn wf(self, n: nat, v: nat) -> bool {
        &&& self.rows.len() == n
        &&& self.successors.len() == n
        &&& forall|ln: int| 0 <= ln < n ==> (#[trigger] self.rows[ln]).len() == v
        &&& forall|ln: int, var: int|
            0 <= ln < n && 0 <= var < v ==> names_within(#[trigger] self.rows[ln][var], n)
        &&& targets_within(self.break_ln, n)
        &&& targets_within(self.cont_ln, n)
    }

    /// The state before anything is known: every fact dead and unused, no
    /// successor set.
    pub open spec fn empty(n: nat, v: nat) -> Flow {
        Flow {
            rows: Seq::new(n, |ln: int| Seq::new(v, |var: int| RWU::dead(false))),
            successors: Seq::new(n, |ln: int| no_node()),
            break_ln: Map::empty(),
            cont_ln: Map::empty(),
        }
    }

    /// `ln` is followed by `succ`; its facts stay as they are.
    pub open spec fn init_empty(self, ln: LiveNode, succ: LiveNode) -> Flow {
        Flow { successors: self.successors.update(ln.0 as int, succ), ..self }
    }

    /// `ln` is followed by `succ` and starts with the facts of `succ`.
    pub open spec fn init_from_succ(self, ln: LiveNode, succ: LiveNode) -> Flow {
        Flow {
            rows: self.rows.update(ln.0 as int, self.rows[succ.0 as int]),
            successors: self.successors.update(ln.0 as int, succ),
            ..self
        }
    }

    /// The facts of `succ` are added to those of `ln`: what is live, written
    /// or used on either is so on `ln` afterwards.
    pub open spec fn merge_from_succ(self, ln: LiveNode, succ: LiveNode) -> Flow {
        if ln == succ {
            self
        } else {
            Flow {
                rows: self.rows.update(
                    ln.0 as int,
                    merged_row(
                        self.rows[ln.0 as int],
                        self.rows[succ.0 as int],
                        self.rows[ln.0 as int].len() as int,
                    ),
                ),
                ..self
            }
        }
    }

    /// `var` is defined at `ln`: what was known of it before is forgotten,
    /// but for whether it was used.
    pub open spec fn define(self, ln: LiveNode, var: Variable) -> Flow {
        Flow {
            rows: self.rows.update(
                ln.0 as int,
                self.rows[ln.0 as int].update(
                    var.0 as int,
                    RWU::dead(self.rows[ln.0 as int][var.0 as int].used),
                ),
            ),
            ..self
        }
    }

    /// `var` is read, written or both at `ln`.
    pub open spec fn acc(self, ln: LiveNode, var: Variable, acc: Access) -> Flow {
        Flow {
            rows: self.rows.update(
                ln.0 as int,
                self.rows[ln.0 as int].update(
                    var.0 as int,
                    accessed(self.rows[ln.0 as int][var.0 as int], ln, acc),
                ),
            ),
            ..self
        }
    }

    /// `var` is defined at `ln`, for each `var` of `vars[i..]`.
    pub open spec fn define_all(self, ln: LiveNode, vars: Seq<Variable>, i: nat) -> Flow
        decreases vars.len() - i,
    {
        if i >= vars.len() {
            self
        } else {
            self.define(ln, vars[i as int]).define_all(ln, vars, i + 1)
        }
    }

    /// The node that reads the value `var` holds on entry to `ln`, if any.
    pub open spec fn reader(self, ln: LiveNode, var: Variable) -> LiveNode {
        self.rows[ln.0 as int][var.0 as int].reader
    }

    /// The node that overwrites `var` after entry to `ln`, if any.
    pub open spec fn writer(self, ln: LiveNode, var: Variable) -> LiveNode {
        self.rows[ln.0 as int][var.0 as int].writer
    }

    pub open spec fn used(self, ln: LiveNode, var: Variable) -> bool {
        self.rows[ln.0 as int][var.0 as int].used
    }

    /// The node that follows `ln`, if one was set.
    pub open spec fn successor(self, ln: LiveNode) -> Result<LiveNode, Violation> {
        if self.successors[ln.0 as int].0 < self.rows.len() {
            Ok(self.successors[ln.0 as int])
        } else {
            Err(Violation::NoSuccessor)
        }
    }
}

/// The kind of a node that a fact names, `None` for "no node".
pub open spec fn kind_of(ir: IrState, node: LiveNode) -> Option<LiveNodeKind> {
    if node.valid() {
        Some(ir.lnks[node.0 as int])
    } else {
        None
    }
}

/// The state and the special nodes with which the walk over a body starts:
/// the closure node and the exit node are numbered after the nodes of the
/// first pass, and nothing is known yet.
pub open spec fn start(ir: IrState) -> Result<(Cx, Flow), Violation> {
    match ir.add_live_node(LiveNodeKind::ClosureNode) {
        Err(v) => Err(v),
        Ok((s1, closure_ln)) => match s1.add_live_node(LiveNodeKind::ExitNode) {
            Err(v) => Err(v),
            Ok((s2, exit_ln)) => if s2.lnks.len() * s2.var_kinds.len() >= INV_INV_TRUE {
                Err(Violation::TooLarge)
            } else {
                Ok(
                    (
                        Cx { ir: s2, s: Specials { closure_ln, exit_ln } },
                        Flow::empty(s2.lnks.len(), s2.var_kinds.len()),
                    ),
                )
            },
        },
    }
}

/// How many further rounds a fixed point may take: each one sets at least
/// one of the three fields of one variable's fact at the node that collects
/// them.
pub open spec fn round_limit(cx: Cx) -> nat {
    3 * cx.ir.var_kinds.len()
}

/// A read or write of the variable `var_hid` by the expression `id`.
pub open spec fn flow_access(cx: Cx, f: Flow, id: u64, var_hid: u64, succ: LiveNode, acc: Access)
    -> Result<(Flow, LiveNode), Violation> {
    match live_node_of(cx.ir, id) {
        Err(v) => Err(v),
        Ok(ln) => match variable_of(cx.ir, var_hid) {
            Err(v) => Err(v),
            Ok(var) => Ok((f.init_from_succ(ln, succ).acc(ln, var, acc), ln)),
        },
    }
}

/// The bindings `bs[i..]` of a pattern, each a definition that starts from
/// the one before it.
pub open spec fn flow_defs(cx: Cx, f: Flow, bs: Seq<Binding>, i: nat, succ: LiveNode) -> Result<
    (Flow, LiveNode),
    Violation,
>
    decreases bs.len() - i,
{
    if i >= bs.len() {
        Ok((f, succ))
    } else if !bs[i as int].first {
        flow_defs(cx, f, bs, i + 1, succ)
    } else {
        match live_node_of(cx.ir, bs[i as int].id) {
            Err(v) => Err(v),
            Ok(ln) => match variable_of(cx.ir, bs[i as int].id) {
                Err(v) => Err(v),
                Ok(var) => flow_defs(
                    cx,
                    f.init_from_succ(ln, succ).define(ln, var),
                    bs,
                    i + 1,
                    ln,
                ),
            },
        }
    }
}

/// The captures `cs[..n]` of a closure expression, last first: each reads
/// and uses its variable at its own node.
pub open spec fn flow_captures(cx: Cx, f: Flow, cs: Seq<CaptureInfo>, n: nat, succ: LiveNode)
    -> Result<(Flow, LiveNode), Violation>
    decreases n,
{
    if n == 0 || n > cs.len() {
        Ok((f, succ))
    } else {
        let cap = cs[n - 1];
        match variable_of(cx.ir, cap.var_hid) {
            Err(v) => Err(v),
            Ok(var) => flow_captures(
                cx,
                f.init_from_succ(cap.ln, succ).acc(cap.ln, var, Access::ReadUse),
                cs,
                (n - 1) as nat,
                cap.ln,
            ),
        }
    }
}

/// The write to the place `l` of an assignment. Only a local variable is
/// tracked; any other place is left to its components.
pub open spec fn flow_write_place(cx: Cx, f: Flow, l: Expr, succ: LiveNode, acc: Access) -> Result<
    (Flow, LiveNode),
    Violation,
> {
    match l.kind {
        ExprKind::Local(var) => flow_access(cx, f, l.id, var, succ, acc),
        _ => Ok((f, succ)),
    }
}

/// The state before an expression, given the state after it.
pub open spec fn flow_expr(cx: Cx, f: Flow, e: Expr, succ: LiveNode) -> Result<
    (Flow, LiveNode),
    Violation,
>
    decreases e, 0nat,
{
    match e.kind {
        ExprKind::Local(var) => flow_access(cx, f, e.id, var, succ, Access::ReadUse),
        ExprKind::Compound(es, diverges) => flow_exprs(
            cx,
            f,
            es@,
            es@.len(),
            if diverges {
                cx.s.exit_ln
            } else {
                succ
            },
        ),
        ExprKind::Lazy(l, r) => match flow_expr(cx, f, *r, succ) {
            Err(v) => Err(v),
            Ok((f1, r_succ)) => match live_node_of(cx.ir, e.id) {
                Err(v) => Err(v),
                Ok(ln) => flow_expr(
                    cx,
                    f1.init_from_succ(ln, succ).merge_from_succ(ln, r_succ),
                    *l,
                    ln,
                ),
            },
        },
        ExprKind::Assign(l, r) => match flow_write_place(cx, f, *l, succ, Access::Write) {
            Err(v) => Err(v),
            Ok((f1, s1)) => match flow_place_components(cx, f1, *l, s1) {
                Err(v) => Err(v),
                Ok((f2, s2)) => flow_expr(cx, f2, *r, s2),
            },
        },
        ExprKind::AssignOp(l, r) => match flow_write_place(cx, f, *l, succ, Access::ReadWrite) {
            Err(v) => Err(v),
            Ok((f1, s1)) => match flow_expr(cx, f1, *r, s1) {
                Err(v) => Err(v),
                Ok((f2, s2)) => flow_place_components(cx, f2, *l, s2),
            },
        },
        ExprKind::Let(pat, init) => match flow_opt(cx, f, init, succ) {
            Err(v) => Err(v),
            Ok((f1, s1)) => flow_defs(cx, f1, bindings(pat, true), 0, s1),
        },
        ExprKind::Block(es, targeted) => flow_exprs(
            cx,
            if targeted {
                Flow { break_ln: f.break_ln.insert(e.id, succ), ..f }
            } else {
                f
            },
            es@,
            es@.len(),
            succ,
        ),
        ExprKind::Loop(body) => match live_node_of(cx.ir, e.id) {
            Err(v) => Err(v),
            Ok(ln) => {
                let f0 = Flow {
                    break_ln: f.break_ln.insert(e.id, succ),
                    cont_ln: f.cont_ln.insert(e.id, ln),
                    ..f.init_empty(ln, succ)
                };
                match flow_expr(cx, f0, *body, ln) {
                    Err(v) => Err(v),
                    Ok((f1, body_ln)) => match flow_fix(
                        cx,
                        f1,
                        *body,
                        ln,
                        body_ln,
                        None,
                        round_limit(cx),
                    ) {
                        Err(v) => Err(v),
                        Ok(f2) => Ok((f2, ln)),
                    },
                }
            },
        },
        ExprKind::Match(scrutinee, arms) => match live_node_of(cx.ir, e.id) {
            Err(v) => Err(v),
            Ok(ln) => match flow_arms(cx, f.init_empty(ln, succ), arms@, 0, ln, succ) {
                Err(v) => Err(v),
                Ok(f1) => flow_expr(cx, f1, *scrutinee, ln),
            },
        },
        ExprKind::Ret(value) => flow_opt(cx, f, value, cx.s.exit_ln),
        ExprKind::Break(target, value) => match target {
            None => Err(Violation::UnresolvedBreak),
            Some(id) => if f.break_ln.contains_key(id) {
                flow_opt(cx, f, value, f.break_ln[id])
            } else {
                Err(Violation::UnresolvedBreak)
            },
        },
        ExprKind::Continue(target) => match target {
            None => Err(Violation::UnresolvedContinue),
            Some(id) => if f.cont_ln.contains_key(id) {
                Ok((f, f.cont_ln[id]))
            } else {
                Err(Violation::UnresolvedContinue)
            },
        },
        ExprKind::Closure(_) => if cx.ir.caps.contains_key(e.id) {
            flow_captures(cx, f, cx.ir.caps[e.id], cx.ir.caps[e.id].len(), succ)
        } else {
            Err(Violation::NoCaptures)
        },
    }
}

pub open spec fn flow_opt(cx: Cx, f: Flow, o: Option<Box<Expr>>, succ: LiveNode) -> Result<
    (Flow, LiveNode),
    Violation,
>
    decreases o, 0nat,
{
    match o {
        Some(e) => flow_expr(cx, f, *e, succ),
        None => Ok((f, succ)),
    }
}

/// The components of the place of an assignment. A path has none; any other
/// place is evaluated as an expression.
pub open spec fn flow_place_components(cx: Cx, f: Flow, l: Expr, succ: LiveNode) -> Result<
    (Flow, LiveNode),
    Violation,
>
    decreases l, 1nat,
{
    match l.kind {
        ExprKind::Local(_) => Ok((f, succ)),
        _ => flow_expr(cx, f, l, succ),
    }
}

/// The expressions `es[..n]`, last first.
pub open spec fn flow_exprs(cx: Cx, f: Flow, es: Seq<Expr>, n: nat, succ: LiveNode) -> Result<
    (Flow, LiveNode),
    Violation,
>
    decreases es, n,
{
    if n == 0 || n > es.len() {
        Ok((f, succ))
    } else {
        match flow_expr(cx, f, es[n - 1], succ) {
            Err(v) => Err(v),
            Ok((f1, s1)) => flow_exprs(cx, f1, es, (n - 1) as nat, s1),
        }
    }
}

/// One arm of a match whose node is `ln`: its body, its guard and its
/// bindings against the state after the match, then the merge of the arm's
/// entry into `ln`.
pub open spec fn flow_arm(cx: Cx, f: Flow, arm: Arm, ln: LiveNode, succ: LiveNode) -> Result<
    Flow,
    Violation,
>
    decreases arm, 0nat,
{
    match flow_expr(cx, f, arm.body, succ) {
        Err(v) => Err(v),
        Ok((f1, body_succ)) => {
            let guarded = match arm.guard {
                Some(g) => flow_expr(cx, f1, g, body_succ),
                None => Ok((f1, body_succ)),
            };
            match guarded {
                Err(v) => Err(v),
                Ok((f2, guard_succ)) => match flow_defs(
                    cx,
                    f2,
                    bindings(arm.pat, true),
                    0,
                    guard_succ,
                ) {
                    Err(v) => Err(v),
                    Ok((f3, arm_succ)) => Ok(f3.merge_from_succ(ln, arm_succ)),
                },
            }
        },
    }
}

/// The arms `arms[i..]` of a match, in order.
pub open spec fn flow_arms(cx: Cx, f: Flow, arms: Seq<Arm>, i: nat, ln: LiveNode, succ: LiveNode)
    -> Result<Flow, Violation>
    decreases arms, arms.len() - i,
{
    if i >= arms.len() {
        Ok(f)
    } else {
        match flow_arm(cx, f, arms[i as int], ln, succ) {
            Err(v) => Err(v),
            Ok(f1) => flow_arms(cx, f1, arms, i + 1, ln, succ),
        }
    }
}

/// The state at the start of a round: with `reentry`, the closure node takes
/// the facts of the body's entry, less the parameters, which each call
/// defines anew.
pub open spec fn round_start(cx: Cx, f: Flow, entry: LiveNode, reentry: Option<Seq<Variable>>)
    -> Flow {
    match reentry {
        None => f,
        Some(vars) => f.init_from_succ(cx.s.closure_ln, entry).define_all(cx.s.closure_ln, vars, 0),
    }
}

/// The node whose facts a round merges into the target.
pub open spec fn round_source(cx: Cx, entry: LiveNode, reentry: Option<Seq<Variable>>) -> LiveNode {
    match reentry {
        None => entry,
        Some(_) => cx.s.closure_ln,
    }
}

/// Iterates a loop or a closure that can run again until nothing changes.
///
/// `body` was propagated once against `target` and gave `entry`. Each round
/// merges the facts on entry into `target`; if that changed `target`, the
/// body is propagated again. `fuel` bounds the rounds that are left.
pub open spec fn flow_fix(
    cx: Cx,
    f: Flow,
    body: Expr,
    target: LiveNode,
    entry: LiveNode,
    reentry: Option<Seq<Variable>>,
    fuel: nat,
) -> Result<Flow, Violation>
    decreases body, fuel + 1,
{
    let f1 = round_start(cx, f, entry, reentry);
    let f2 = f1.merge_from_succ(target, round_source(cx, entry, reentry));
    if f2.rows == f1.rows {
        Ok(f1)
    } else if fuel == 0 {
        Err(Violation::NotConverged)
    } else {
        match flow_expr(cx, f2, body, target) {
            Err(v) => Err(v),
            Ok((f3, again)) => if again != entry {
                Err(Violation::EntryMoved)
            } else {
                flow_fix(cx, f3, body, target, entry, reentry, (fuel - 1) as nat)
            },
        }
    }
}

/// The captured variables `us[..n]`, last first: one captured by reference
/// is read and used at the exit, since the enclosing body may read it after
/// the closure has run.
pub open spec fn flow_upvars(cx: Cx, f: Flow, us: Seq<Upvar>, n: nat) -> Result<Flow, Violation>
    decreases n,
{
    if n == 0 || n > us.len() {
        Ok(f)
    } else if !us[n - 1].by_ref {
        flow_upvars(cx, f, us, (n - 1) as nat)
    } else {
        match variable_of(cx.ir, us[n - 1].var) {
            Err(v) => Err(v),
            Ok(var) => flow_upvars(
                cx,
                f.acc(cx.s.exit_ln, var, Access::ReadUse),
                us,
                (n - 1) as nat,
            ),
        }
    }
}

/// The variables that the bindings `bs[i..]` declare, after `acc`.
pub open spec fn vars_of(ir: IrState, bs: Seq<Binding>, i: nat, acc: Seq<Variable>) -> Result<
    Seq<Variable>,
    Violation,
>
    decreases bs.len() - i,
{
    if i >= bs.len() {
        Ok(acc)
    } else if !bs[i as int].first {
        vars_of(ir, bs, i + 1, acc)
    } else {
        match variable_of(ir, bs[i as int].id) {
            Err(v) => Err(v),
            Ok(var) => vars_of(ir, bs, i + 1, acc.push(var)),
        }
    }
}

/// The variables that the parameters `ps[i..]` declare, after `acc`.
pub open spec fn param_vars(ir: IrState, ps: Seq<Pat>, i: nat, acc: Seq<Variable>) -> Result<
    Seq<Variable>,
    Violation,
>
    decreases ps.len() - i,
{
    if i >= ps.len() {
        Ok(acc)
    } else {
        match vars_of(ir, bindings(ps[i as int], true), 0, acc) {
            Err(v) => Err(v),
            Ok(acc1) => param_vars(ir, ps, i + 1, acc1),
        }
    }
}

/// The state of a whole body and its entry node.
pub open spec fn flow_body(cx: Cx, f: Flow, body: Body) -> Result<(Flow, LiveNode), Violation> {
    match flow_upvars(cx, f, body.upvars@, body.upvars@.len()) {
        Err(v) => Err(v),
        Ok(f1) => match flow_expr(cx, f1, body.value, cx.s.exit_ln) {
            Err(v) => Err(v),
            Ok((f2, entry)) => if !body.kind.reentrant() {
                Ok((f2, entry))
            } else {
                match param_vars(cx.ir, body.params@, 0, Seq::empty()) {
                    Err(v) => Err(v),
                    Ok(vars) => match flow_fix(
                        cx,
                        f2,
                        body.value,
                        cx.s.exit_ln,
                        entry,
                        Some(vars),
                        round_limit(cx),
                    ) {
                        Err(v) => Err(v),
                        Ok(f3) => Ok((f3, entry)),
                    },
                }
            },
        },
    }
}

} // verus!
