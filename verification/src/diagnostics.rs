//! The third pass: a walk over the body in source order that reads the
//! computed facts and lists what it finds. It changes nothing.

use crate::flow::{flow_body, start, Cx, Flow};
use crate::hir::{bindings, Arm, Binding, Body, Expr, ExprKind, Pat, Span, Upvar};
use crate::ir_maps::{alloc_body, live_node_of, variable_of, IrMaps, Violation};
use crate::propagate::Liveness;
use crate::rwu::{LiveNode, Variable};
use vstd::prelude::*;
use vstd::string::StringExecFns;

verus! {

/// What a finding says of its variable.
#[derive(Clone, Copy, PartialEq, Eq, Structural, Debug)]
pub enum DiagnosticKind {
    /// The variable is never used.
    UnusedVariable,
    /// The variable is assigned to, but never used. This is said once, of
    /// the variable as a whole, at its binding.
    UnusedAssigned,
    /// A value assigned to the variable is never read. This is said of an
    /// assignment, not of the initializer of a `let`, which is part of the
    /// definition.
    DeadAssignment,
    /// The value passed to the parameter is never read.
    DeadArgument,
    /// The value that a closure captured by value is never read; capturing
    /// by reference may have been meant.
    UnusedCapture,
}

/// The edit offered at one place of a finding.
#[derive(Clone, Copy, PartialEq, Eq, Structural, Debug)]
pub enum Fix {
    /// No edit can be offered safely.
    Nothing,
    /// Prefix the name with an underscore: `_x`.
    Underscore,
    /// Ignore the field that a shorthand binds: `x: _`.
    IgnoreField,
    /// Replace the binding by a wildcard: `_`.
    Wildcard,
}

/// One place of a finding, with the edit offered there.
#[derive(Clone, Copy, PartialEq, Eq, Structural, Debug)]
pub struct Part {
    pub span: Span,
    pub fix: Fix,
}

/// One finding.
#[derive(Debug)]
pub struct Diagnostic {
    pub kind: DiagnosticKind,
    /// The name of the variable.
    pub name: String,
    /// Where the variable is bound or assigned; never empty.
    pub parts: Vec<Part>,
}

/// A finding as a mathematical value.
pub struct DiagnosticView {
    pub kind: DiagnosticKind,
    pub name: Seq<char>,
    pub parts: Seq<Part>,
}

impl View for Diagnostic {
    type V = DiagnosticView;

    open spec fn view(&self) -> DiagnosticView {
        DiagnosticView { kind: self.kind, name: self.name@, parts: self.parts@ }
    }
}

pub open spec fn diag_views(ds: Seq<Diagnostic>) -> Seq<DiagnosticView> {
    Seq::new(ds.len(), |i: int| ds[i]@)
}

/// Whether the text that an edit puts in place of a binding named `name` is
/// `text`.
pub open spec fn replaces(fix: Fix, name: Seq<char>, text: Option<Seq<char>>) -> bool {
    match fix {
        Fix::Nothing => text is None,
        Fix::Underscore => text == Some("_"@ + name),
        Fix::IgnoreField => text == Some(name + ": _"@),
        Fix::Wildcard => text == Some("_"@),
    }
}

impl Part {
    /// The text that the edit puts in place of a binding named `name`.
    pub fn replacement(&self, name: &String) -> (r: Option<String>)
        ensures
            replaces(
                self.fix,
                name@,
                match r {
                    Some(s) => Some(s@),
                    None => None,
                },
            ),
    {
        match self.fix {
            Fix::Nothing => None,
            Fix::Underscore => Some(String::from_str("_").concat(name.as_str())),
            Fix::IgnoreField => Some(name.clone().concat(": _")),
            Fix::Wildcard => Some(String::from_str("_")),
        }
    }
}

/// Whether a finding about a variable of this name is wanted. A name with
/// exactly one leading underscore says that the variable is unused on
/// purpose; `x` and `__x` say no such thing.
pub open spec fn should_warn(name: Seq<char>) -> bool {
    name.len() > 0 && !(name[0] == '_' && (name.len() == 1 || name[1] != '_'))
}

pub fn should_warn_name(name: &String) -> (r: bool)
    ensures
        r == should_warn(name@),
{
    let s = name.as_str();
    let n = s.unicode_len();
    if n == 0 {
        return false;
    }
    if s.get_char(0) != '_' {
        return true;
    }
    if n == 1 {
        return false;
    }
    s.get_char(1) == '_'
}

/// Where a pattern stands, which decides what is said of a binding that is
/// used.
#[derive(Clone, Copy, PartialEq, Eq, Structural, Debug)]
pub enum PatRole {
    /// In a `let` or in a match arm.
    Binding,
    /// In a parameter of a body with this entry node.
    Param(LiveNode),
}

/// Whether one of the first `n` bindings declares a variable named `name`.
pub open spec fn named_before(bs: Seq<Binding>, name: Seq<char>, n: nat) -> bool
    decreases n,
{
    n > 0 && n <= bs.len() && (named_before(bs, name, (n - 1) as nat) || (bs[n - 1].first && bs[n
        - 1].name@ == name))
}

/// Whether binding `i` is the first to declare a variable of its name. Such
/// a binding speaks for all bindings of that name in the pattern.
pub open spec fn is_leader(bs: Seq<Binding>, i: int) -> bool {
    bs[i].first && !named_before(bs, bs[i].name@, i as nat)
}

/// Whether one of the first `n` bindings is named `name` and written in
/// shorthand.
pub open spec fn has_shorthand(bs: Seq<Binding>, name: Seq<char>, n: nat) -> bool
    decreases n,
{
    n > 0 && n <= bs.len() && (has_shorthand(bs, name, (n - 1) as nat) || (bs[n - 1].name@ == name
        && bs[n - 1].is_shorthand))
}

/// The places of those of the first `n` bindings that are named `name`, in
/// order, with the edit `short` at a shorthand and `other` elsewhere.
pub open spec fn group_parts(bs: Seq<Binding>, name: Seq<char>, n: nat, short: Fix, other: Fix) -> Seq<
    Part,
>
    decreases n,
{
    if n == 0 || n > bs.len() {
        Seq::empty()
    } else if bs[n - 1].name@ == name {
        group_parts(bs, name, (n - 1) as nat, short, other).push(
            Part {
                span: bs[n - 1].span,
                fix: if bs[n - 1].is_shorthand {
                    short
                } else {
                    other
                },
            },
        )
    } else {
        group_parts(bs, name, (n - 1) as nat, short, other)
    }
}

/// The name under which the tables know a variable.
pub open spec fn name_of(cx: Cx, var: Variable) -> Seq<char> {
    cx.ir.var_kinds[var.0 as int].name()@
}

/// A value written to `var` at `ln` is reported where nothing reads it
/// afterwards.
pub open spec fn dead_assign(
    cx: Cx,
    f: Flow,
    kind: DiagnosticKind,
    parts: Seq<Part>,
    dead: bool,
    var: Variable,
    acc: Seq<DiagnosticView>,
) -> Seq<DiagnosticView> {
    if dead && should_warn(name_of(cx, var)) {
        acc.push(DiagnosticView { kind, name: name_of(cx, var), parts })
    } else {
        acc
    }
}

/// A variable that is not used on entry to `ln` is reported: as assigned
/// but never used where something writes it after `ln`, as unused
/// otherwise. Only the second comes with an edit: at a shorthand the field
/// is ignored, and the other bindings of the name become wildcards; without
/// a shorthand the name gets an underscore.
pub open spec fn report_unused(
    cx: Cx,
    f: Flow,
    bs: Seq<Binding>,
    i: int,
    ln: LiveNode,
    var: Variable,
    acc: Seq<DiagnosticView>,
) -> Result<Seq<DiagnosticView>, Violation> {
    let name = name_of(cx, var);
    let group = bs[i].name@;
    let unused = DiagnosticView {
        kind: DiagnosticKind::UnusedVariable,
        name,
        parts: group_parts(
            bs,
            group,
            bs.len(),
            Fix::IgnoreField,
            if has_shorthand(bs, group, bs.len()) {
                Fix::Wildcard
            } else {
                Fix::Underscore
            },
        ),
    };
    if !should_warn(name) || name == "self"@ {
        Ok(acc)
    } else if ln == cx.s.exit_ln {
        Ok(acc.push(unused))
    } else {
        match f.successor(ln) {
            Err(v) => Err(v),
            Ok(succ) => if f.writer(succ, var).valid() {
                Ok(
                    acc.push(
                        DiagnosticView {
                            kind: DiagnosticKind::UnusedAssigned,
                            name,
                            parts: group_parts(bs, group, bs.len(), Fix::Nothing, Fix::Nothing),
                        },
                    ),
                )
            } else {
                Ok(acc.push(unused))
            },
        }
    }
}

/// What is found at the bindings named like binding `i`, which leads them.
pub open spec fn check_group(
    cx: Cx,
    f: Flow,
    bs: Seq<Binding>,
    i: int,
    role: PatRole,
    acc: Seq<DiagnosticView>,
) -> Result<Seq<DiagnosticView>, Violation> {
    let found = match role {
        PatRole::Param(entry_ln) => Ok(entry_ln),
        _ => live_node_of(cx.ir, bs[i].id),
    };
    match found {
        Err(v) => Err(v),
        Ok(ln) => match variable_of(cx.ir, bs[i].id) {
            Err(v) => Err(v),
            Ok(var) => if !f.used(ln, var) {
                report_unused(cx, f, bs, i, ln, var, acc)
            } else {
                let parts = group_parts(bs, bs[i].name@, bs.len(), Fix::Nothing, Fix::Nothing);
                match role {
                    PatRole::Param(_) => Ok(
                        dead_assign(
                            cx,
                            f,
                            DiagnosticKind::DeadArgument,
                            parts,
                            !f.reader(ln, var).valid(),
                            var,
                            acc,
                        ),
                    ),
                    _ => Ok(acc),
                }
            },
        },
    }
}

/// What is found at the bindings `bs[i..]` of a pattern.
pub open spec fn check_pat(
    cx: Cx,
    f: Flow,
    bs: Seq<Binding>,
    i: nat,
    role: PatRole,
    acc: Seq<DiagnosticView>,
) -> Result<Seq<DiagnosticView>, Violation>
    decreases bs.len() - i,
{
    if i >= bs.len() {
        Ok(acc)
    } else if !is_leader(bs, i as int) {
        check_pat(cx, f, bs, i + 1, role, acc)
    } else {
        match check_group(cx, f, bs, i as int, role, acc) {
            Err(v) => Err(v),
            Ok(acc1) => check_pat(cx, f, bs, i + 1, role, acc1),
        }
    }
}

/// What is found at the place of an assignment: a write to a local variable
/// whose value nothing reads afterwards.
pub open spec fn check_place(cx: Cx, f: Flow, l: Expr, acc: Seq<DiagnosticView>) -> Result<
    Seq<DiagnosticView>,
    Violation,
> {
    match l.kind {
        ExprKind::Local(var_hid) => match live_node_of(cx.ir, l.id) {
            Err(v) => Err(v),
            Ok(ln) => match variable_of(cx.ir, var_hid) {
                Err(v) => Err(v),
                Ok(var) => match f.successor(ln) {
                    Err(v) => Err(v),
                    Ok(succ) => Ok(
                        dead_assign(
                            cx,
                            f,
                            DiagnosticKind::DeadAssignment,
                            seq![Part { span: l.span, fix: Fix::Nothing }],
                            !f.reader(succ, var).valid(),
                            var,
                            acc,
                        ),
                    ),
                },
            },
        },
        _ => Ok(acc),
    }
}

/// What is found in an expression, after `acc`. A closure is analysed as a
/// body of its own, at the place where it stands.
pub open spec fn check_expr(cx: Cx, f: Flow, e: Expr, acc: Seq<DiagnosticView>) -> Result<
    Seq<DiagnosticView>,
    Violation,
>
    decreases e, 0nat,
{
    match e.kind {
        ExprKind::Local(_) => Ok(acc),
        ExprKind::Compound(es, _) => check_exprs(cx, f, es@, 0, acc),
        ExprKind::Lazy(l, r) => match check_expr(cx, f, *l, acc) {
            Err(v) => Err(v),
            Ok(acc1) => check_expr(cx, f, *r, acc1),
        },
        ExprKind::Assign(l, r) => match check_place(cx, f, *l, acc) {
            Err(v) => Err(v),
            Ok(acc1) => match check_expr(cx, f, *r, acc1) {
                Err(v) => Err(v),
                Ok(acc2) => check_expr(cx, f, *l, acc2),
            },
        },
        ExprKind::AssignOp(l, r) => match check_place(cx, f, *l, acc) {
            Err(v) => Err(v),
            Ok(acc1) => match check_expr(cx, f, *r, acc1) {
                Err(v) => Err(v),
                Ok(acc2) => check_expr(cx, f, *l, acc2),
            },
        },
        ExprKind::Let(pat, init) => match check_pat(
            cx,
            f,
            bindings(pat, true),
            0,
            PatRole::Binding,
            acc,
        ) {
            Err(v) => Err(v),
            Ok(acc1) => check_opt(cx, f, init, acc1),
        },
        ExprKind::Block(es, _) => check_exprs(cx, f, es@, 0, acc),
        ExprKind::Loop(body) => check_expr(cx, f, *body, acc),
        ExprKind::Match(scrutinee, arms) => match check_expr(cx, f, *scrutinee, acc) {
            Err(v) => Err(v),
            Ok(acc1) => check_arms(cx, f, arms@, 0, acc1),
        },
        ExprKind::Ret(value) => check_opt(cx, f, value, acc),
        ExprKind::Break(_, value) => check_opt(cx, f, value, acc),
        ExprKind::Continue(_) => Ok(acc),
        ExprKind::Closure(body) => analysis(*body, acc),
    }
}

pub open spec fn check_opt(cx: Cx, f: Flow, o: Option<Box<Expr>>, acc: Seq<DiagnosticView>) -> Result<
    Seq<DiagnosticView>,
    Violation,
>
    decreases o, 0nat,
{
    match o {
        Some(e) => check_expr(cx, f, *e, acc),
        None => Ok(acc),
    }
}

/// What is found in the expressions `es[i..]`, in order.
pub open spec fn check_exprs(cx: Cx, f: Flow, es: Seq<Expr>, i: nat, acc: Seq<DiagnosticView>) -> Result<
    Seq<DiagnosticView>,
    Violation,
>
    decreases es, es.len() - i,
{
    if i >= es.len() {
        Ok(acc)
    } else {
        match check_expr(cx, f, es[i as int], acc) {
            Err(v) => Err(v),
            Ok(acc1) => check_exprs(cx, f, es, i + 1, acc1),
        }
    }
}

/// What is found in one arm: at its bindings, in its guard, in its body.
pub open spec fn check_arm(cx: Cx, f: Flow, arm: Arm, acc: Seq<DiagnosticView>) -> Result<
    Seq<DiagnosticView>,
    Violation,
>
    decreases arm, 0nat,
{
    match check_pat(cx, f, bindings(arm.pat, true), 0, PatRole::Binding, acc) {
        Err(v) => Err(v),
        Ok(acc1) => {
            let guarded = match arm.guard {
                Some(g) => check_expr(cx, f, g, acc1),
                None => Ok(acc1),
            };
            match guarded {
                Err(v) => Err(v),
                Ok(acc2) => check_expr(cx, f, arm.body, acc2),
            }
        },
    }
}

pub open spec fn check_arms(cx: Cx, f: Flow, arms: Seq<Arm>, i: nat, acc: Seq<DiagnosticView>) -> Result<
    Seq<DiagnosticView>,
    Violation,
>
    decreases arms, arms.len() - i,
{
    if i >= arms.len() {
        Ok(acc)
    } else {
        match check_arm(cx, f, arms[i as int], acc) {
            Err(v) => Err(v),
            Ok(acc1) => check_arms(cx, f, arms, i + 1, acc1),
        }
    }
}

/// What is found at the captured variables `us[i..]` of a closure with
/// entry node `entry_ln`: one captured by value is reported unless its
/// value is both used and live on entry.
pub open spec fn check_upvars(
    cx: Cx,
    f: Flow,
    us: Seq<Upvar>,
    i: nat,
    entry_ln: LiveNode,
    acc: Seq<DiagnosticView>,
) -> Result<Seq<DiagnosticView>, Violation>
    decreases us.len() - i,
{
    if i >= us.len() {
        Ok(acc)
    } else {
        match variable_of(cx.ir, us[i as int].var) {
            Err(v) => Err(v),
            Ok(var) => check_upvars(
                cx,
                f,
                us,
                i + 1,
                entry_ln,
                if us[i as int].by_ref {
                    acc
                } else {
                    dead_assign(
                        cx,
                        f,
                        DiagnosticKind::UnusedCapture,
                        seq![Part { span: us[i as int].span, fix: Fix::Nothing }],
                        !(f.used(entry_ln, var) && f.reader(entry_ln, var).valid()),
                        var,
                        acc,
                    )
                },
            ),
        }
    }
}

/// What is found at the parameters `ps[i..]`.
pub open spec fn check_params(
    cx: Cx,
    f: Flow,
    ps: Seq<Pat>,
    i: nat,
    entry_ln: LiveNode,
    acc: Seq<DiagnosticView>,
) -> Result<Seq<DiagnosticView>, Violation>
    decreases ps.len() - i,
{
    if i >= ps.len() {
        Ok(acc)
    } else {
        match check_pat(cx, f, bindings(ps[i as int], true), 0, PatRole::Param(entry_ln), acc) {
            Err(v) => Err(v),
            Ok(acc1) => check_params(cx, f, ps, i + 1, entry_ln, acc1),
        }
    }
}

/// The findings of a body, after `acc`: the three passes one after the
/// other, and a violation met on the way in place of any finding.
pub open spec fn analysis(body: Body, acc: Seq<DiagnosticView>) -> Result<
    Seq<DiagnosticView>,
    Violation,
>
    decreases body, 1nat,
{
    match alloc_body(body) {
        Err(v) => Err(v),
        Ok(ir) => match start(ir) {
            Err(v) => Err(v),
            Ok((cx, f0)) => match flow_body(cx, f0, body) {
                Err(v) => Err(v),
                Ok((f, entry_ln)) => match check_expr(cx, f, body.value, acc) {
                    Err(v) => Err(v),
                    Ok(acc1) => match check_upvars(cx, f, body.upvars@, 0, entry_ln, acc1) {
                        Err(v) => Err(v),
                        Ok(acc2) => check_params(cx, f, body.params@, 0, entry_ln, acc2),
                    },
                },
            },
        },
    }
}

/// Whether a step of the third pass that should lead to `expected` did.
pub open spec fn reported(
    expected: Result<Seq<DiagnosticView>, Violation>,
    now: Seq<Diagnostic>,
    r: Result<(), Violation>,
) -> bool {
    match expected {
        Ok(ds) => r is Ok && diag_views(now) == ds,
        Err(v) => r == Err::<(), Violation>(v),
    }
}

fn push_diagnostic(out: &mut Vec<Diagnostic>, kind: DiagnosticKind, name: String, parts: Vec<Part>)
    ensures
        diag_views(final(out)@) == diag_views(old(out)@).push(
            DiagnosticView { kind, name: name@, parts: parts@ },
        ),
{
    out.push(Diagnostic { kind, name, parts });
    assert(diag_views(out@) =~= diag_views(old(out)@).push(
        DiagnosticView { kind, name: name@, parts: parts@ },
    ));
}

fn named_earlier(bs: &Vec<Binding>, i: usize) -> (r: bool)
    requires
        i < bs.len(),
    ensures
        r == named_before(bs@, bs@[i as int].name@, i as nat),
{
    let mut j: usize = 0;
    let mut found = false;
    while j < i
        invariant
            j <= i,
            i < bs.len(),
            found == named_before(bs@, bs@[i as int].name@, j as nat),
        decreases i - j,
    {
        if bs[j].first && bs[j].name == bs[i].name {
            found = true;
        }
        j = j + 1;
    }
    found
}

fn group_has_shorthand(bs: &Vec<Binding>, i: usize) -> (r: bool)
    requires
        i < bs.len(),
    ensures
        r == has_shorthand(bs@, bs@[i as int].name@, bs@.len()),
{
    let mut j: usize = 0;
    let mut found = false;
    while j < bs.len()
        invariant
            j <= bs.len(),
            i < bs.len(),
            found == has_shorthand(bs@, bs@[i as int].name@, j as nat),
        decreases bs.len() - j,
    {
        if bs[j].name == bs[i].name && bs[j].is_shorthand {
            found = true;
        }
        j = j + 1;
    }
    found
}

fn collect_group_parts(bs: &Vec<Binding>, i: usize, short: Fix, other: Fix) -> (r: Vec<Part>)
    requires
        i < bs.len(),
    ensures
        r@ == group_parts(bs@, bs@[i as int].name@, bs@.len(), short, other),
{
    let mut j: usize = 0;
    let mut parts: Vec<Part> = Vec::new();
    while j < bs.len()
        invariant
            j <= bs.len(),
            i < bs.len(),
            parts@ == group_parts(bs@, bs@[i as int].name@, j as nat, short, other),
        decreases bs.len() - j,
    {
        if bs[j].name == bs[i].name {
            parts.push(
                Part {
                    span: bs[j].span,
                    fix: if bs[j].is_shorthand {
                        short
                    } else {
                        other
                    },
                },
            );
        }
        j = j + 1;
    }
    parts
}

impl Liveness {
    /// The name of a variable, unless it says that no finding is wanted.
    pub fn should_warn(&self, var: Variable) -> (r: Option<String>)
        requires
            self.wf(),
            var.0 < self.vars(),
        ensures
            r is Some == should_warn(name_of(self.cx(), var)),
            r is Some ==> r->Some_0@ == name_of(self.cx(), var),
    {
        let name = self.ir.variable_name(var);
        if should_warn_name(&name) {
            Some(name)
        } else {
            None
        }
    }

    /// Reports a value that nothing reads, if a finding is wanted for the
    /// variable.
    pub fn report_unused_assign(
        &self,
        kind: DiagnosticKind,
        parts: Vec<Part>,
        var: Variable,
        out: &mut Vec<Diagnostic>,
    )
        requires
            self.wf(),
            var.0 < self.vars(),
        ensures
            diag_views(final(out)@) == dead_assign(
                self.cx(),
                self@,
                kind,
                parts@,
                true,
                var,
                diag_views(old(out)@),
            ),
    {
        match self.should_warn(var) {
            Some(name) => push_diagnostic(out, kind, name, parts),
            None => {},
        }
    }

    /// Reports a value written at `ln` that nothing reads afterwards.
    pub fn warn_about_dead_assign(
        &self,
        parts: Vec<Part>,
        ln: LiveNode,
        var: Variable,
        out: &mut Vec<Diagnostic>,
    ) -> (r: Result<(), Violation>)
        requires
            self.wf(),
            ln.0 < self.nodes(),
            var.0 < self.vars(),
        ensures
            reported(
                match self@.successor(ln) {
                    Err(v) => Err(v),
                    Ok(succ) => Ok(
                        dead_assign(
                            self.cx(),
                            self@,
                            DiagnosticKind::DeadAssignment,
                            parts@,
                            !self@.reader(succ, var).valid(),
                            var,
                            diag_views(old(out)@),
                        ),
                    ),
                },
                final(out)@,
                r,
            ),
    {
        let live = match self.live_on_exit(ln, var) {
            Ok(live) => live,
            Err(v) => {
                return Err(v);
            },
        };
        if live.is_none() {
            self.report_unused_assign(DiagnosticKind::DeadAssignment, parts, var, out);
        }
        Ok(())
    }

    /// Reports a variable that is not used on entry to `ln`.
    pub fn report_unused(
        &self,
        bs: &Vec<Binding>,
        i: usize,
        ln: LiveNode,
        var: Variable,
        out: &mut Vec<Diagnostic>,
    ) -> (r: Result<(), Violation>)
        requires
            self.wf(),
            i < bs.len(),
            ln.0 < self.nodes(),
            var.0 < self.vars(),
        ensures
            reported(
                report_unused(self.cx(), self@, bs@, i as int, ln, var, diag_views(old(out)@)),
                final(out)@,
                r,
            ),
    {
        let name = match self.should_warn(var) {
            Some(name) => name,
            None => {
                return Ok(());
            },
        };
        if name == String::from_str("self") {
            return Ok(());
        }
        // A parameter of a body without any node but the exit has nothing
        // after it that could assign.
        let is_assigned = if ln == self.s.exit_ln {
            false
        } else {
            match self.assigned_on_exit(ln, var) {
                Ok(w) => w.is_some(),
                Err(v) => {
                    return Err(v);
                },
            }
        };
        if is_assigned {
            let parts = collect_group_parts(bs, i, Fix::Nothing, Fix::Nothing);
            push_diagnostic(out, DiagnosticKind::UnusedAssigned, name, parts);
        } else {
            let other = if group_has_shorthand(bs, i) {
                Fix::Wildcard
            } else {
                Fix::Underscore
            };
            let parts = collect_group_parts(bs, i, Fix::IgnoreField, other);
            push_diagnostic(out, DiagnosticKind::UnusedVariable, name, parts);
        }
        Ok(())
    }

    fn check_group(&self, bs: &Vec<Binding>, i: usize, role: PatRole, out: &mut Vec<Diagnostic>) -> (r:
        Result<(), Violation>)
        requires
            self.wf(),
            i < bs.len(),
            role matches PatRole::Param(entry_ln) ==> entry_ln.0 < self.nodes(),
        ensures
            reported(
                check_group(self.cx(), self@, bs@, i as int, role, diag_views(old(out)@)),
                final(out)@,
                r,
            ),
    {
        let ln = match role {
            PatRole::Param(entry_ln) => entry_ln,
            _ => match self.live_node(bs[i].id) {
                Ok(ln) => ln,
                Err(v) => {
                    return Err(v);
                },
            },
        };
        let var = match self.variable(bs[i].id) {
            Ok(var) => var,
            Err(v) => {
                return Err(v);
            },
        };
        if !self.used_on_entry(ln, var) {
            return self.report_unused(bs, i, ln, var, out);
        }
        match role {
            PatRole::Param(_) => {
                if self.live_on_entry(ln, var).is_none() {
                    let parts = collect_group_parts(bs, i, Fix::Nothing, Fix::Nothing);
                    self.report_unused_assign(DiagnosticKind::DeadArgument, parts, var, out);
                }
                Ok(())
            },
            _ => Ok(()),
        }
    }

    /// Checks the bindings of a pattern. Bindings of one name, as the
    /// alternatives of an or-pattern have them, give one finding that names
    /// every place.
    pub fn check_unused_vars_in_pat(&self, pat: &Pat, role: PatRole, out: &mut Vec<Diagnostic>) -> (r:
        Result<(), Violation>)
        requires
            self.wf(),
            role matches PatRole::Param(entry_ln) ==> entry_ln.0 < self.nodes(),
        ensures
            reported(
                check_pat(self.cx(), self@, bindings(*pat, true), 0, role, diag_views(old(out)@)),
                final(out)@,
                r,
            ),
    {
        let bs = pat.bindings();
        let mut i: usize = 0;
        while i < bs.len()
            invariant
                i <= bs.len(),
                bs@ == bindings(*pat, true),
                self.wf(),
                role matches PatRole::Param(entry_ln) ==> entry_ln.0 < self.nodes(),
                check_pat(self.cx(), self@, bs@, 0, role, diag_views(old(out)@)) == check_pat(
                    self.cx(),
                    self@,
                    bs@,
                    i as nat,
                    role,
                    diag_views(out@),
                ),
            decreases bs.len() - i,
        {
            if bs[i].first && !named_earlier(&bs, i) {
                match self.check_group(&bs, i, role, out) {
                    Ok(()) => {},
                    Err(v) => {
                        return Err(v);
                    },
                }
            }
            i = i + 1;
        }
        Ok(())
    }

    /// Checks the place of an assignment.
    pub fn check_place(&self, expr: &Expr, out: &mut Vec<Diagnostic>) -> (r: Result<(), Violation>)
        requires
            self.wf(),
        ensures
            reported(
                check_place(self.cx(), self@, *expr, diag_views(old(out)@)),
                final(out)@,
                r,
            ),
    {
        match &expr.kind {
            ExprKind::Local(var_hid) => {
                let ln = match self.live_node(expr.id) {
                    Ok(ln) => ln,
                    Err(v) => {
                        return Err(v);
                    },
                };
                let var = match self.variable(*var_hid) {
                    Ok(var) => var,
                    Err(v) => {
                        return Err(v);
                    },
                };
                let mut parts: Vec<Part> = Vec::new();
                parts.push(Part { span: expr.span, fix: Fix::Nothing });
                assert(parts@ =~= seq![Part { span: expr.span, fix: Fix::Nothing }]);
                self.warn_about_dead_assign(parts, ln, var, out)
            },
            // Nothing is checked at another place; what it is made of is
            // walked as any expression is.
            _ => Ok(()),
        }
    }

    fn check_opt(&self, o: &Option<Box<Expr>>, out: &mut Vec<Diagnostic>) -> (r: Result<
        (),
        Violation,
    >)
        requires
            self.wf(),
        ensures
            reported(check_opt(self.cx(), self@, *o, diag_views(old(out)@)), final(out)@, r),
        decreases o, 0nat,
    {
        match o {
            Some(e) => self.check_expr(e, out),
            None => Ok(()),
        }
    }

    fn check_exprs(&self, es: &Vec<Expr>, out: &mut Vec<Diagnostic>) -> (r: Result<(), Violation>)
        requires
            self.wf(),
        ensures
            reported(check_exprs(self.cx(), self@, es@, 0, diag_views(old(out)@)), final(out)@, r),
        decreases es, 1nat,
    {
        let mut i: usize = 0;
        while i < es.len()
            invariant
                i <= es.len(),
                self.wf(),
                check_exprs(self.cx(), self@, es@, 0, diag_views(old(out)@)) == check_exprs(
                    self.cx(),
                    self@,
                    es@,
                    i as nat,
                    diag_views(out@),
                ),
            decreases es.len() - i,
        {
            proof {
                assert(decreases_to!(*es => es[i as int]));
            }
            match self.check_expr(&es[i], out) {
                Ok(()) => {},
                Err(v) => {
                    return Err(v);
                },
            }
            i = i + 1;
        }
        Ok(())
    }

    /// Checks one arm of a match.
    pub fn check_arm(&self, arm: &Arm, out: &mut Vec<Diagnostic>) -> (r: Result<(), Violation>)
        requires
            self.wf(),
        ensures
            reported(check_arm(self.cx(), self@, *arm, diag_views(old(out)@)), final(out)@, r),
        decreases arm, 0nat,
    {
        match self.check_unused_vars_in_pat(&arm.pat, PatRole::Binding, out) {
            Ok(()) => {},
            Err(v) => {
                return Err(v);
            },
        }
        match &arm.guard {
            Some(g) => match self.check_expr(g, out) {
                Ok(()) => {},
                Err(v) => {
                    return Err(v);
                },
            },
            None => {},
        }
        self.check_expr(&arm.body, out)
    }

    fn check_arms(&self, arms: &Vec<Arm>, out: &mut Vec<Diagnostic>) -> (r: Result<(), Violation>)
        requires
            self.wf(),
        ensures
            reported(
                check_arms(self.cx(), self@, arms@, 0, diag_views(old(out)@)),
                final(out)@,
                r,
            ),
        decreases arms, 1nat,
    {
        let mut i: usize = 0;
        while i < arms.len()
            invariant
                i <= arms.len(),
                self.wf(),
                check_arms(self.cx(), self@, arms@, 0, diag_views(old(out)@)) == check_arms(
                    self.cx(),
                    self@,
                    arms@,
                    i as nat,
                    diag_views(out@),
                ),
            decreases arms.len() - i,
        {
            proof {
                assert(decreases_to!(*arms => arms[i as int]));
            }
            match self.check_arm(&arms[i], out) {
                Ok(()) => {},
                Err(v) => {
                    return Err(v);
                },
            }
            i = i + 1;
        }
        Ok(())
    }

    /// Checks an expression and what it holds, in source order.
    pub fn check_expr(&self, expr: &Expr, out: &mut Vec<Diagnostic>) -> (r: Result<(), Violation>)
        requires
            self.wf(),
        ensures
            reported(check_expr(self.cx(), self@, *expr, diag_views(old(out)@)), final(out)@, r),
        decreases expr, 0nat,
    {
        match &expr.kind {
            ExprKind::Local(_) => Ok(()),
            ExprKind::Compound(es, _) => {
                proof {
                    assert(decreases_to!(expr => expr.kind));
                    assert(decreases_to!(expr.kind => expr.kind->Compound_0));
                }
                self.check_exprs(es, out)
            },
            ExprKind::Lazy(l, r) => {
                match self.check_expr(l, out) {
                    Ok(()) => {},
                    Err(v) => {
                        return Err(v);
                    },
                }
                self.check_expr(r, out)
            },
            ExprKind::Assign(l, r) => {
                match self.check_place(l, out) {
                    Ok(()) => {},
                    Err(v) => {
                        return Err(v);
                    },
                }
                match self.check_expr(r, out) {
                    Ok(()) => {},
                    Err(v) => {
                        return Err(v);
                    },
                }
                self.check_expr(l, out)
            },
            ExprKind::AssignOp(l, r) => {
                match self.check_place(l, out) {
                    Ok(()) => {},
                    Err(v) => {
                        return Err(v);
                    },
                }
                match self.check_expr(r, out) {
                    Ok(()) => {},
                    Err(v) => {
                        return Err(v);
                    },
                }
                self.check_expr(l, out)
            },
            ExprKind::Let(pat, init) => {
                match self.check_unused_vars_in_pat(pat, PatRole::Binding, out) {
                    Ok(()) => {},
                    Err(v) => {
                        return Err(v);
                    },
                }
                self.check_opt(init, out)
            },
            ExprKind::Block(es, _) => {
                proof {
                    assert(decreases_to!(expr => expr.kind));
                    assert(decreases_to!(expr.kind => expr.kind->Block_0));
                }
                self.check_exprs(es, out)
            },
            ExprKind::Loop(body) => self.check_expr(body, out),
            ExprKind::Match(scrutinee, arms) => {
                match self.check_expr(scrutinee, out) {
                    Ok(()) => {},
                    Err(v) => {
                        return Err(v);
                    },
                }
                proof {
                    assert(decreases_to!(expr => expr.kind));
                    assert(decreases_to!(expr.kind => expr.kind->Match_1));
                }
                self.check_arms(arms, out)
            },
            ExprKind::Ret(value) => self.check_opt(value, out),
            ExprKind::Break(_, value) => self.check_opt(value, out),
            ExprKind::Continue(_) => Ok(()),
            ExprKind::Closure(body) => analyze_into(body, out),
        }
    }

    /// Checks the captured variables of a closure.
    pub fn warn_about_unused_upvars(
        &self,
        upvars: &Vec<Upvar>,
        entry_ln: LiveNode,
        out: &mut Vec<Diagnostic>,
    ) -> (r: Result<(), Violation>)
        requires
            self.wf(),
            entry_ln.0 < self.nodes(),
        ensures
            reported(
                check_upvars(self.cx(), self@, upvars@, 0, entry_ln, diag_views(old(out)@)),
                final(out)@,
                r,
            ),
    {
        let mut i: usize = 0;
        while i < upvars.len()
            invariant
                i <= upvars.len(),
                self.wf(),
                entry_ln.0 < self.nodes(),
                check_upvars(self.cx(), self@, upvars@, 0, entry_ln, diag_views(old(out)@))
                    == check_upvars(self.cx(), self@, upvars@, i as nat, entry_ln, diag_views(out@)),
            decreases upvars.len() - i,
        {
            let var = match self.variable(upvars[i].var) {
                Ok(var) => var,
                Err(v) => {
                    return Err(v);
                },
            };
            if !upvars[i].by_ref {
                let read = self.used_on_entry(entry_ln, var) && self.live_on_entry(
                    entry_ln,
                    var,
                ).is_some();
                if !read {
                    let mut parts: Vec<Part> = Vec::new();
                    parts.push(Part { span: upvars[i].span, fix: Fix::Nothing });
                    assert(parts@ =~= seq![Part { span: upvars[i as int].span, fix: Fix::Nothing }]);
                    self.report_unused_assign(DiagnosticKind::UnusedCapture, parts, var, out);
                }
            }
            i = i + 1;
        }
        Ok(())
    }

    /// Checks the parameters of a body.
    pub fn warn_about_unused_args(
        &self,
        params: &Vec<Pat>,
        entry_ln: LiveNode,
        out: &mut Vec<Diagnostic>,
    ) -> (r: Result<(), Violation>)
        requires
            self.wf(),
            entry_ln.0 < self.nodes(),
        ensures
            reported(
                check_params(self.cx(), self@, params@, 0, entry_ln, diag_views(old(out)@)),
                final(out)@,
                r,
            ),
    {
        let mut i: usize = 0;
        while i < params.len()
            invariant
                i <= params.len(),
                self.wf(),
                entry_ln.0 < self.nodes(),
                check_params(self.cx(), self@, params@, 0, entry_ln, diag_views(old(out)@))
                    == check_params(self.cx(), self@, params@, i as nat, entry_ln, diag_views(out@)),
            decreases params.len() - i,
        {
            match self.check_unused_vars_in_pat(&params[i], PatRole::Param(entry_ln), out) {
                Ok(()) => {},
                Err(v) => {
                    return Err(v);
                },
            }
            i = i + 1;
        }
        Ok(())
    }
}

/// Analyses a body and appends its findings to `out`.
pub fn analyze_into(body: &Body, out: &mut Vec<Diagnostic>) -> (r: Result<(), Violation>)
    ensures
        reported(analysis(*body, diag_views(old(out)@)), final(out)@, r),
    decreases body, 1nat,
{
    let fn_maps = match IrMaps::visit_body(body) {
        Ok(m) => m,
        Err(v) => {
            return Err(v);
        },
    };
    let mut lsets = match Liveness::new(fn_maps) {
        Ok(l) => l,
        Err(v) => {
            return Err(v);
        },
    };
    let entry_ln = match lsets.compute(body) {
        Ok(ln) => ln,
        Err(v) => {
            return Err(v);
        },
    };
    match lsets.check_expr(&body.value, out) {
        Ok(()) => {},
        Err(v) => {
            return Err(v);
        },
    }
    match lsets.warn_about_unused_upvars(&body.upvars, entry_ln, out) {
        Ok(()) => {},
        Err(v) => {
            return Err(v);
        },
    }
    lsets.warn_about_unused_args(&body.params, entry_ln, out)
}

/// The findings of a body: those in its value in source order, each
/// closure analysed where it stands, then those at its captured variables
/// and at its parameters.
///
/// The result is a function of the body alone: analysing the same body
/// again gives the same list. A well-formed body gets its findings; a
/// body too large for the tables is refused.
pub fn analyze(body: &Body) -> (r: Result<Vec<Diagnostic>, Violation>)
    ensures
        match analysis(*body, Seq::empty()) {
            Ok(ds) => r is Ok && diag_views(r->Ok_0@) == ds,
            Err(v) => r is Err && r->Err_0 == v,
        },
        r matches Ok(ds) ==> forall|i: int|
            0 <= i < ds@.len() ==> (#[trigger] ds@[i]).parts@.len() > 0 && should_warn(ds@[i].name@),
        crate::wellformed::well_formed(*body) ==> r is Ok,
        !crate::size::fits(*body) ==> r is Err && r->Err_0 == Violation::TooLarge,
{
    proof {
        if crate::wellformed::well_formed(*body) {
            crate::wellformed::lemma_analysis_total(*body, Seq::empty());
        }
        crate::size::lemma_size_body(*body);
        crate::findings::lemma_tidy_analysis(*body, Seq::empty());
    }
    let mut out: Vec<Diagnostic> = Vec::new();
    assert(diag_views(out@) =~= Seq::empty());
    match analyze_into(body, &mut out) {
        Ok(()) => {
            assert forall|i: int| 0 <= i < out@.len() implies (#[trigger] out@[i]).parts@.len() > 0
                && should_warn(out@[i].name@) by {
                assert(diag_views(out@)[i] == out@[i]@);
            }
            Ok(out)
        },
        Err(v) => Err(v),
    }
}

} // verus!
