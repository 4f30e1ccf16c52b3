//! The first pass: one walk over a body that gives a dense number to every
//! live node and to every variable, and records which tree location got
//! which number.

use crate::hir::{bindings, Arm, Binding, Body, Expr, ExprKind, Pat, Span, Upvar};
use crate::rwu::{LiveNode, Variable};
use std::collections::HashMap;
use vstd::prelude::*;

verus! {

broadcast use vstd::std_specs::hash::group_hash_axioms;

/// A broken internal invariant. The analysis of the body stops with it; no
/// diagnostic is made up in its place.
#[derive(Clone, Copy, PartialEq, Eq, Structural, Debug)]
pub enum Violation {
    /// More live nodes, variables or facts than the tables can number.
    TooLarge,
    /// A tree location that needs a live node has none.
    NoLiveNode,
    /// A path names a variable that the body does not declare.
    NoVariable,
    /// A closure expression without a capture list.
    NoCaptures,
    /// A `break` whose label is unresolved or names nothing around it.
    UnresolvedBreak,
    /// A `continue` whose label is unresolved or names no loop around it.
    UnresolvedContinue,
    /// A live node whose successor was never set.
    NoSuccessor,
    /// Propagating a loop or closure body again gave another entry node.
    EntryMoved,
    /// A fixed point was not reached within the bound on its rounds.
    NotConverged,
}

/// What a live node stands for.
#[derive(Clone, Copy, PartialEq, Eq, Structural, Debug)]
pub enum LiveNodeKind {
    /// The capture of a variable by a closure expression.
    UpvarNode(Span),
    /// An expression.
    ExprNode(Span),
    /// A binding in a `let` or in a match arm.
    VarDefNode(Span),
    /// The point before a closure is entered again and after it has run.
    ClosureNode,
    /// Every exit from the body.
    ExitNode,
}

/// One captured variable of a closure expression.
#[derive(Clone, Copy, PartialEq, Eq, Structural, Debug)]
pub struct CaptureInfo {
    pub ln: LiveNode,
    pub var_hid: u64,
}

#[derive(Debug)]
pub struct LocalInfo {
    pub id: u64,
    pub name: String,
    pub is_shorthand: bool,
}

/// How a variable was declared.
#[derive(Debug)]
pub enum VarKind {
    Param(u64, String),
    Local(LocalInfo),
    Upvar(u64, String),
}

impl VarKind {
    pub open spec fn id(self) -> u64 {
        match self {
            VarKind::Param(id, _) => id,
            VarKind::Local(info) => info.id,
            VarKind::Upvar(id, _) => id,
        }
    }

    pub open spec fn name(self) -> String {
        match self {
            VarKind::Param(_, name) => name,
            VarKind::Local(info) => info.name,
            VarKind::Upvar(_, name) => name,
        }
    }

    pub open spec fn is_shorthand(self) -> bool {
        match self {
            VarKind::Local(info) => info.is_shorthand,
            _ => false,
        }
    }
}

/// The tables of the first pass.
pub struct IrMaps {
    pub live_node_map: HashMap<u64, LiveNode>,
    pub variable_map: HashMap<u64, Variable>,
    pub capture_info_map: HashMap<u64, Vec<CaptureInfo>>,
    pub var_kinds: Vec<VarKind>,
    pub lnks: Vec<LiveNodeKind>,
}

/// The tables as mathematical maps and sequences.
pub struct IrState {
    pub live: Map<u64, LiveNode>,
    pub vars: Map<u64, Variable>,
    pub caps: Map<u64, Seq<CaptureInfo>>,
    pub var_kinds: Seq<VarKind>,
    pub lnks: Seq<LiveNodeKind>,
}

/// The largest number of live nodes, and of variables, that a body may have.
pub const MAX_INDEX: usize = 0xFFFF_FFFF;

impl IrState {
    pub open spec fn empty() -> IrState {
        IrState {
            live: Map::empty(),
            vars: Map::empty(),
            caps: Map::empty(),
            var_kinds: Seq::empty(),
            lnks: Seq::empty(),
        }
    }

    /// Every recorded number is the number of a live node or variable that
    /// exists, and none is the number that means "no node".
    pub open spec fn wf(self) -> bool {
        &&& self.lnks.len() <= MAX_INDEX
        &&& self.var_kinds.len() <= MAX_INDEX
        &&& forall|id: u64| #[trigger]
            self.live.contains_key(id) ==> self.live[id].0 < self.lnks.len()
        &&& forall|id: u64| #[trigger]
            self.vars.contains_key(id) ==> self.vars[id].0 < self.var_kinds.len()
        &&& forall|id: u64, i: int|
            self.caps.contains_key(id) && 0 <= i < self.caps[id].len() ==> (
            #[trigger] self.caps[id][i]).ln.0 < self.lnks.len()
    }

    /// A new live node of the given kind, numbered after those that exist.
    pub open spec fn add_live_node(self, lnk: LiveNodeKind) -> Result<(IrState, LiveNode), Violation> {
        if self.lnks.len() >= MAX_INDEX {
            Err(Violation::TooLarge)
        } else {
            Ok((IrState { lnks: self.lnks.push(lnk), ..self }, LiveNode(self.lnks.len() as u32)))
        }
    }

    /// A new live node for the tree location `id`.
    pub open spec fn add_live_node_for_node(self, id: u64, lnk: LiveNodeKind) -> Result<
        IrState,
        Violation,
    > {
        match self.add_live_node(lnk) {
            Err(v) => Err(v),
            Ok((st, ln)) => Ok(IrState { live: st.live.insert(id, ln), ..st }),
        }
    }

    /// A new variable, numbered after those that exist and found again by
    /// the id of its declaration.
    pub open spec fn add_variable(self, vk: VarKind) -> Result<IrState, Violation> {
        if self.var_kinds.len() >= MAX_INDEX {
            Err(Violation::TooLarge)
        } else {
            Ok(
                IrState {
                    vars: self.vars.insert(vk.id(), Variable(self.var_kinds.len() as u32)),
                    var_kinds: self.var_kinds.push(vk),
                    ..self
                },
            )
        }
    }

    pub open spec fn set_captures(self, id: u64, cs: Seq<CaptureInfo>) -> IrState {
        IrState { caps: self.caps.insert(id, cs), ..self }
    }
}

/// Whether a step that should lead to `expected` did: on success the tables
/// are the expected ones, on failure the violation is the expected one.
pub open spec fn stepped(
    expected: Result<IrState, Violation>,
    now: IrState,
    r: Result<(), Violation>,
) -> bool {
    match expected {
        Ok(st) => r is Ok && now == st && now.wf(),
        Err(v) => r == Err::<(), Violation>(v),
    }
}

/// The variable that a binding of a `let` or of a match arm declares.
pub open spec fn local_of(b: Binding) -> VarKind {
    VarKind::Local(LocalInfo { id: b.id, name: b.name, is_shorthand: b.is_shorthand })
}

/// The variable that a binding of a parameter declares.
pub open spec fn param_of(b: Binding) -> VarKind {
    if b.is_shorthand {
        local_of(b)
    } else {
        VarKind::Param(b.id, b.name)
    }
}

/// The tables after the bindings `bs[i..]` of a `let` or of a match arm:
/// each binding of a first alternative gets a live node and a variable.
pub open spec fn alloc_bindings(st: IrState, bs: Seq<Binding>, i: nat) -> Result<IrState, Violation>
    decreases bs.len() - i,
{
    if i >= bs.len() {
        Ok(st)
    } else if !bs[i as int].first {
        alloc_bindings(st, bs, i + 1)
    } else {
        match st.add_live_node_for_node(bs[i as int].id, LiveNodeKind::VarDefNode(bs[i as int].span)) {
            Err(v) => Err(v),
            Ok(s1) => match s1.add_variable(local_of(bs[i as int])) {
                Err(v) => Err(v),
                Ok(s2) => alloc_bindings(s2, bs, i + 1),
            },
        }
    }
}

/// The tables after the bindings `bs[i..]` of a parameter: each binding of a
/// first alternative gets a variable.
pub open spec fn alloc_params(st: IrState, bs: Seq<Binding>, i: nat) -> Result<IrState, Violation>
    decreases bs.len() - i,
{
    if i >= bs.len() {
        Ok(st)
    } else if !bs[i as int].first {
        alloc_params(st, bs, i + 1)
    } else {
        match st.add_variable(param_of(bs[i as int])) {
            Err(v) => Err(v),
            Ok(s1) => alloc_params(s1, bs, i + 1),
        }
    }
}

/// The tables after the parameters `ps[i..]`.
pub open spec fn alloc_param_pats(st: IrState, ps: Seq<Pat>, i: nat) -> Result<IrState, Violation>
    decreases ps.len() - i,
{
    if i >= ps.len() {
        Ok(st)
    } else {
        match alloc_params(st, bindings(ps[i as int], true), 0) {
            Err(v) => Err(v),
            Ok(s1) => alloc_param_pats(s1, ps, i + 1),
        }
    }
}

/// The tables after the captured variables `us[i..]`: one variable each.
pub open spec fn alloc_upvars(st: IrState, us: Seq<Upvar>, i: nat) -> Result<IrState, Violation>
    decreases us.len() - i,
{
    if i >= us.len() {
        Ok(st)
    } else {
        match st.add_variable(VarKind::Upvar(us[i as int].var, us[i as int].name)) {
            Err(v) => Err(v),
            Ok(s1) => alloc_upvars(s1, us, i + 1),
        }
    }
}

/// The tables and the capture list after one capture node for each of
/// `us[i..]`.
pub open spec fn alloc_captures(st: IrState, us: Seq<Upvar>, i: nat, cs: Seq<CaptureInfo>) -> Result<
    (IrState, Seq<CaptureInfo>),
    Violation,
>
    decreases us.len() - i,
{
    if i >= us.len() {
        Ok((st, cs))
    } else {
        match st.add_live_node(LiveNodeKind::UpvarNode(us[i as int].span)) {
            Err(v) => Err(v),
            Ok((s1, ln)) => alloc_captures(
                s1,
                us,
                i + 1,
                cs.push(CaptureInfo { ln, var_hid: us[i as int].var }),
            ),
        }
    }
}

/// The tables after the walk over an expression.
///
/// A live node goes to each read of a local variable, each closure
/// expression (followed by one node per captured variable), each loop, each
/// match and each lazy boolean operator; a live node and a variable go to
/// each binding of a `let` and of a match arm. The walk visits an expression
/// before its operands and does not enter the body of a closure.
pub open spec fn alloc_expr(st: IrState, e: Expr) -> Result<IrState, Violation>
    decreases e, 0nat,
{
    match e.kind {
        ExprKind::Local(_) => st.add_live_node_for_node(e.id, LiveNodeKind::ExprNode(e.span)),
        ExprKind::Compound(es, _) => alloc_exprs(st, es@, 0),
        ExprKind::Lazy(l, r) => match st.add_live_node_for_node(
            e.id,
            LiveNodeKind::ExprNode(e.span),
        ) {
            Err(v) => Err(v),
            Ok(s1) => match alloc_expr(s1, *l) {
                Err(v) => Err(v),
                Ok(s2) => alloc_expr(s2, *r),
            },
        },
        ExprKind::Assign(l, r) => match alloc_expr(st, *r) {
            Err(v) => Err(v),
            Ok(s1) => alloc_expr(s1, *l),
        },
        ExprKind::AssignOp(l, r) => match alloc_expr(st, *r) {
            Err(v) => Err(v),
            Ok(s1) => alloc_expr(s1, *l),
        },
        ExprKind::Let(pat, init) => match alloc_bindings(st, bindings(pat, true), 0) {
            Err(v) => Err(v),
            Ok(s1) => alloc_opt(s1, init),
        },
        ExprKind::Block(es, _) => alloc_exprs(st, es@, 0),
        ExprKind::Loop(body) => match st.add_live_node_for_node(
            e.id,
            LiveNodeKind::ExprNode(e.span),
        ) {
            Err(v) => Err(v),
            Ok(s1) => alloc_expr(s1, *body),
        },
        ExprKind::Match(scrutinee, arms) => match st.add_live_node_for_node(
            e.id,
            LiveNodeKind::ExprNode(e.span),
        ) {
            Err(v) => Err(v),
            Ok(s1) => match alloc_expr(s1, *scrutinee) {
                Err(v) => Err(v),
                Ok(s2) => alloc_arms(s2, arms@, 0),
            },
        },
        ExprKind::Ret(value) => alloc_opt(st, value),
        ExprKind::Break(_, value) => alloc_opt(st, value),
        ExprKind::Continue(_) => Ok(st),
        ExprKind::Closure(body) => match st.add_live_node_for_node(
            e.id,
            LiveNodeKind::ExprNode(e.span),
        ) {
            Err(v) => Err(v),
            Ok(s1) => match alloc_captures(s1, body.upvars@, 0, Seq::empty()) {
                Err(v) => Err(v),
                Ok((s2, cs)) => Ok(s2.set_captures(e.id, cs)),
            },
        },
    }
}

pub open spec fn alloc_opt(st: IrState, o: Option<Box<Expr>>) -> Result<IrState, Violation>
    decreases o, 0nat,
{
    match o {
        Some(e) => alloc_expr(st, *e),
        None => Ok(st),
    }
}

/// The tables after the walk over `es[i..]`, from left to right.
pub open spec fn alloc_exprs(st: IrState, es: Seq<Expr>, i: nat) -> Result<IrState, Violation>
    decreases es, es.len() - i,
{
    if i >= es.len() {
        Ok(st)
    } else {
        match alloc_expr(st, es[i as int]) {
            Err(v) => Err(v),
            Ok(s1) => alloc_exprs(s1, es, i + 1),
        }
    }
}

/// The tables after the walk over one arm: its bindings, its guard, its
/// body.
pub open spec fn alloc_arm(st: IrState, arm: Arm) -> Result<IrState, Violation>
    decreases arm, 0nat,
{
    match alloc_bindings(st, bindings(arm.pat, true), 0) {
        Err(v) => Err(v),
        Ok(s1) => match arm.guard {
            Some(g) => match alloc_expr(s1, g) {
                Err(v) => Err(v),
                Ok(s2) => alloc_expr(s2, arm.body),
            },
            None => alloc_expr(s1, arm.body),
        },
    }
}

/// The tables after the walk over the arms `arms[i..]`.
pub open spec fn alloc_arms(st: IrState, arms: Seq<Arm>, i: nat) -> Result<IrState, Violation>
    decreases arms, arms.len() - i,
{
    if i >= arms.len() {
        Ok(st)
    } else {
        match alloc_arm(st, arms[i as int]) {
            Err(v) => Err(v),
            Ok(s1) => alloc_arms(s1, arms, i + 1),
        }
    }
}

/// The tables of a body: its captured variables first, then the bindings of
/// its parameters, then what the walk over its value adds.
pub open spec fn alloc_body(body: Body) -> Result<IrState, Violation> {
    match alloc_upvars(IrState::empty(), body.upvars@, 0) {
        Err(v) => Err(v),
        Ok(s1) => match alloc_param_pats(s1, body.params@, 0) {
            Err(v) => Err(v),
            Ok(s2) => alloc_expr(s2, body.value),
        },
    }
}

pub open spec fn caps_view(m: Map<u64, Vec<CaptureInfo>>) -> Map<u64, Seq<CaptureInfo>> {
    Map::new(|id: u64| m.contains_key(id), |id: u64| m[id]@)
}

impl View for IrMaps {
    type V = IrState;

    open spec fn view(&self) -> IrState {
        IrState {
            live: self.live_node_map@,
            vars: self.variable_map@,
            caps: caps_view(self.capture_info_map@),
            var_kinds: self.var_kinds@,
            lnks: self.lnks@,
        }
    }
}

impl IrMaps {
    pub fn new() -> (r: IrMaps)
        ensures
            r@ == IrState::empty(),
            r@.wf(),
    {
        let r = IrMaps {
            live_node_map: HashMap::new(),
            variable_map: HashMap::new(),
            capture_info_map: HashMap::new(),
            var_kinds: Vec::new(),
            lnks: Vec::new(),
        };
        assert(r@.caps =~= Map::empty());
        r
    }

    pub fn num_live_nodes(&self) -> (r: usize)
        ensures
            r == self@.lnks.len(),
    {
        self.lnks.len()
    }

    pub fn num_vars(&self) -> (r: usize)
        ensures
            r == self@.var_kinds.len(),
    {
        self.var_kinds.len()
    }

    pub fn add_live_node(&mut self, lnk: LiveNodeKind) -> (r: Result<LiveNode, Violation>)
        requires
            old(self)@.wf(),
        ensures
            match old(self)@.add_live_node(lnk) {
                Ok((st, ln)) => r == Ok::<LiveNode, Violation>(ln) && final(self)@ == st && st.wf(),
                Err(v) => r == Err::<LiveNode, Violation>(v),
            },
    {
        if self.lnks.len() >= MAX_INDEX {
            return Err(Violation::TooLarge);
        }
        let ln = LiveNode(self.lnks.len() as u32);
        self.lnks.push(lnk);
        Ok(ln)
    }

    pub fn add_live_node_for_node(&mut self, hir_id: u64, lnk: LiveNodeKind) -> (r: Result<
        (),
        Violation,
    >)
        requires
            old(self)@.wf(),
        ensures
            stepped(old(self)@.add_live_node_for_node(hir_id, lnk), final(self)@, r),
    {
        let ln = self.add_live_node(lnk)?;
        self.live_node_map.insert(hir_id, ln);
        Ok(())
    }

    pub fn add_variable(&mut self, vk: VarKind) -> (r: Result<(), Violation>)
        requires
            old(self)@.wf(),
        ensures
            stepped(old(self)@.add_variable(vk), final(self)@, r),
    {
        if self.var_kinds.len() >= MAX_INDEX {
            return Err(Violation::TooLarge);
        }
        let v = Variable(self.var_kinds.len() as u32);
        let id = match &vk {
            VarKind::Param(id, _) => *id,
            VarKind::Local(info) => info.id,
            VarKind::Upvar(id, _) => *id,
        };
        self.var_kinds.push(vk);
        self.variable_map.insert(id, v);
        Ok(())
    }

    /// The variable declared by the binding `hir_id`.
    pub fn variable(&self, hir_id: u64) -> (r: Result<Variable, Violation>)
        ensures
            r == variable_of(self@, hir_id),
    {
        match self.variable_map.get(&hir_id) {
            Some(var) => Ok(*var),
            None => Err(Violation::NoVariable),
        }
    }

    /// The live node of the tree location `hir_id`.
    pub fn live_node(&self, hir_id: u64) -> (r: Result<LiveNode, Violation>)
        ensures
            r == live_node_of(self@, hir_id),
    {
        match self.live_node_map.get(&hir_id) {
            Some(ln) => Ok(*ln),
            None => Err(Violation::NoLiveNode),
        }
    }

    pub fn variable_name(&self, var: Variable) -> (r: String)
        requires
            var.0 < self@.var_kinds.len(),
        ensures
            r == self@.var_kinds[var.0 as int].name(),
    {
        match &self.var_kinds[var.get()] {
            VarKind::Param(_, name) => name.clone(),
            VarKind::Local(info) => info.name.clone(),
            VarKind::Upvar(_, name) => name.clone(),
        }
    }

    pub fn variable_is_shorthand(&self, var: Variable) -> (r: bool)
        requires
            var.0 < self@.var_kinds.len(),
        ensures
            r == self@.var_kinds[var.0 as int].is_shorthand(),
    {
        match &self.var_kinds[var.get()] {
            VarKind::Local(info) => info.is_shorthand,
            _ => false,
        }
    }

    pub fn set_captures(&mut self, hir_id: u64, cs: Vec<CaptureInfo>)
        requires
            old(self)@.wf(),
            forall|i: int| 0 <= i < cs@.len() ==> (#[trigger] cs@[i]).ln.0 < old(self)@.lnks.len(),
        ensures
            final(self)@ == old(self)@.set_captures(hir_id, cs@),
            final(self)@.wf(),
    {
        self.capture_info_map.insert(hir_id, cs);
        assert(self@.caps =~= old(self)@.caps.insert(hir_id, cs@));
    }

    /// The capture list of the closure expression `hir_id`.
    pub fn captures(&self, hir_id: u64) -> (r: Result<Vec<CaptureInfo>, Violation>)
        ensures
            match r {
                Ok(cs) => self@.caps.contains_key(hir_id) && cs@ == self@.caps[hir_id],
                Err(v) => v == Violation::NoCaptures && !self@.caps.contains_key(hir_id),
            },
    {
        match self.capture_info_map.get(&hir_id) {
            None => Err(Violation::NoCaptures),
            Some(cs) => {
                let mut out: Vec<CaptureInfo> = Vec::new();
                let mut i: usize = 0;
                while i < cs.len()
                    invariant
                        i <= cs.len(),
                        out@ == cs@.subrange(0, i as int),
                    decreases cs.len() - i,
                {
                    out.push(cs[i]);
                    i = i + 1;
                    assert(out@ =~= cs@.subrange(0, i as int));
                }
                assert(out@ =~= cs@);
                Ok(out)
            },
        }
    }

    pub fn lnk(&self, ln: LiveNode) -> (r: LiveNodeKind)
        requires
            ln.0 < self@.lnks.len(),
        ensures
            r == self@.lnks[ln.0 as int],
    {
        self.lnks[ln.get()]
    }

    /// Gives a live node and a variable to each binding of a pattern of a
    /// `let` or of a match arm.
    pub fn add_from_pat(&mut self, pat: &Pat) -> (r: Result<(), Violation>)
        requires
            old(self)@.wf(),
        ensures
            stepped(alloc_bindings(old(self)@, bindings(*pat, true), 0), final(self)@, r),
    {
        let bs = pat.bindings();
        let mut i: usize = 0;
        while i < bs.len()
            invariant
                i <= bs.len(),
                self@.wf(),
                bs@ == bindings(*pat, true),
                alloc_bindings(old(self)@, bs@, 0) == alloc_bindings(self@, bs@, i as nat),
            decreases bs.len() - i,
        {
            if bs[i].first {
                self.add_live_node_for_node(bs[i].id, LiveNodeKind::VarDefNode(bs[i].span))?;
                self.add_variable(
                    VarKind::Local(
                        LocalInfo {
                            id: bs[i].id,
                            name: bs[i].name.clone(),
                            is_shorthand: bs[i].is_shorthand,
                        },
                    ),
                )?;
            }
            i = i + 1;
        }
        Ok(())
    }

    /// Gives a variable to each binding of a parameter.
    pub fn add_param(&mut self, pat: &Pat) -> (r: Result<(), Violation>)
        requires
            old(self)@.wf(),
        ensures
            stepped(alloc_params(old(self)@, bindings(*pat, true), 0), final(self)@, r),
    {
        let bs = pat.bindings();
        let mut i: usize = 0;
        while i < bs.len()
            invariant
                i <= bs.len(),
                self@.wf(),
                bs@ == bindings(*pat, true),
                alloc_params(old(self)@, bs@, 0) == alloc_params(self@, bs@, i as nat),
            decreases bs.len() - i,
        {
            if bs[i].first {
                let vk = if bs[i].is_shorthand {
                    VarKind::Local(
                        LocalInfo { id: bs[i].id, name: bs[i].name.clone(), is_shorthand: true },
                    )
                } else {
                    VarKind::Param(bs[i].id, bs[i].name.clone())
                };
                self.add_variable(vk)?;
            }
            i = i + 1;
        }
        Ok(())
    }

    fn visit_opt(&mut self, o: &Option<Box<Expr>>) -> (r: Result<(), Violation>)
        requires
            old(self)@.wf(),
        ensures
            stepped(alloc_opt(old(self)@, *o), final(self)@, r),
        decreases o, 0nat,
    {
        match o {
            Some(e) => self.visit_expr(e),
            None => Ok(()),
        }
    }

    fn visit_exprs(&mut self, es: &Vec<Expr>) -> (r: Result<(), Violation>)
        requires
            old(self)@.wf(),
        ensures
            stepped(alloc_exprs(old(self)@, es@, 0), final(self)@, r),
        decreases es, 1nat,
    {
        let mut i: usize = 0;
        while i < es.len()
            invariant
                i <= es.len(),
                self@.wf(),
                alloc_exprs(old(self)@, es@, 0) == alloc_exprs(self@, es@, i as nat),
            decreases es.len() - i,
        {
            proof {
                assert(decreases_to!(*es => es[i as int]));
            }
            self.visit_expr(&es[i])?;
            i = i + 1;
        }
        Ok(())
    }

    /// Walks one arm of a match.
    pub fn visit_arm(&mut self, arm: &Arm) -> (r: Result<(), Violation>)
        requires
            old(self)@.wf(),
        ensures
            stepped(alloc_arm(old(self)@, *arm), final(self)@, r),
        decreases arm, 0nat,
    {
        self.add_from_pat(&arm.pat)?;
        match &arm.guard {
            Some(g) => {
                self.visit_expr(g)?;
            },
            None => {},
        }
        self.visit_expr(&arm.body)
    }

    fn visit_arms(&mut self, arms: &Vec<Arm>) -> (r: Result<(), Violation>)
        requires
            old(self)@.wf(),
        ensures
            stepped(alloc_arms(old(self)@, arms@, 0), final(self)@, r),
        decreases arms, 1nat,
    {
        let mut i: usize = 0;
        while i < arms.len()
            invariant
                i <= arms.len(),
                self@.wf(),
                alloc_arms(old(self)@, arms@, 0) == alloc_arms(self@, arms@, i as nat),
            decreases arms.len() - i,
        {
            proof {
                assert(decreases_to!(*arms => arms[i as int]));
            }
            self.visit_arm(&arms[i])?;
            i = i + 1;
        }
        Ok(())
    }

    fn add_captures(&mut self, upvars: &Vec<Upvar>) -> (r: Result<Vec<CaptureInfo>, Violation>)
        requires
            old(self)@.wf(),
        ensures
            match alloc_captures(old(self)@, upvars@, 0, Seq::empty()) {
                Ok((st, cs)) => r is Ok && r->Ok_0@ == cs && final(self)@ == st && st.wf() && forall|
                    i: int,
                |
                    0 <= i < cs.len() ==> (#[trigger] cs[i]).ln.0 < st.lnks.len(),
                Err(v) => r == Err::<Vec<CaptureInfo>, Violation>(v),
            },
    {
        let mut call_caps: Vec<CaptureInfo> = Vec::new();
        let mut i: usize = 0;
        while i < upvars.len()
            invariant
                i <= upvars.len(),
                self@.wf(),
                alloc_captures(old(self)@, upvars@, 0, Seq::empty()) == alloc_captures(
                    self@,
                    upvars@,
                    i as nat,
                    call_caps@,
                ),
                forall|j: int|
                    0 <= j < call_caps@.len() ==> (#[trigger] call_caps@[j]).ln.0 < self@.lnks.len(),
            decreases upvars.len() - i,
        {
            let upvar_ln = self.add_live_node(LiveNodeKind::UpvarNode(upvars[i].span))?;
            call_caps.push(CaptureInfo { ln: upvar_ln, var_hid: upvars[i].var });
            i = i + 1;
        }
        Ok(call_caps)
    }

    /// Walks an expression and numbers what it finds.
    pub fn visit_expr(&mut self, expr: &Expr) -> (r: Result<(), Violation>)
        requires
            old(self)@.wf(),
        ensures
            stepped(alloc_expr(old(self)@, *expr), final(self)@, r),
        decreases expr, 0nat,
    {
        match &expr.kind {
            ExprKind::Local(_) => {
                self.add_live_node_for_node(expr.id, LiveNodeKind::ExprNode(expr.span))
            },
            ExprKind::Compound(es, _) => {
                proof {
                    assert(decreases_to!(expr => expr.kind));
                    assert(decreases_to!(expr.kind => expr.kind->Compound_0));
                }
                self.visit_exprs(es)
            },
            ExprKind::Lazy(l, r) => {
                self.add_live_node_for_node(expr.id, LiveNodeKind::ExprNode(expr.span))?;
                self.visit_expr(l)?;
                self.visit_expr(r)
            },
            ExprKind::Assign(l, r) => {
                self.visit_expr(r)?;
                self.visit_expr(l)
            },
            ExprKind::AssignOp(l, r) => {
                self.visit_expr(r)?;
                self.visit_expr(l)
            },
            ExprKind::Let(pat, init) => {
                self.add_from_pat(pat)?;
                self.visit_opt(init)
            },
            ExprKind::Block(es, _) => {
                proof {
                    assert(decreases_to!(expr => expr.kind));
                    assert(decreases_to!(expr.kind => expr.kind->Block_0));
                }
                self.visit_exprs(es)
            },
            ExprKind::Loop(body) => {
                self.add_live_node_for_node(expr.id, LiveNodeKind::ExprNode(expr.span))?;
                self.visit_expr(body)
            },
            ExprKind::Match(scrutinee, arms) => {
                self.add_live_node_for_node(expr.id, LiveNodeKind::ExprNode(expr.span))?;
                self.visit_expr(scrutinee)?;
                proof {
                    assert(decreases_to!(expr => expr.kind));
                    assert(decreases_to!(expr.kind => expr.kind->Match_1));
                }
                self.visit_arms(arms)
            },
            ExprKind::Ret(value) => self.visit_opt(value),
            ExprKind::Break(_, value) => self.visit_opt(value),
            ExprKind::Continue(_) => Ok(()),
            ExprKind::Closure(body) => {
                // One node for the closure, then one per captured variable,
                // so that a finding can point at the use of the variable
                // rather than at the whole closure.
                self.add_live_node_for_node(expr.id, LiveNodeKind::ExprNode(expr.span))?;
                let call_caps = self.add_captures(&body.upvars)?;
                self.set_captures(expr.id, call_caps);
                Ok(())
            },
        }
    }

    /// The tables of a body.
    pub fn visit_body(body: &Body) -> (r: Result<IrMaps, Violation>)
        ensures
            match alloc_body(*body) {
                Ok(st) => r is Ok && r->Ok_0@ == st && st.wf(),
                Err(v) => r == Err::<IrMaps, Violation>(v),
            },
    {
        let mut fn_maps = IrMaps::new();
        let mut i: usize = 0;
        while i < body.upvars.len()
            invariant
                i <= body.upvars.len(),
                fn_maps@.wf(),
                alloc_upvars(IrState::empty(), body.upvars@, 0) == alloc_upvars(
                    fn_maps@,
                    body.upvars@,
                    i as nat,
                ),
            decreases body.upvars.len() - i,
        {
            match fn_maps.add_variable(
                VarKind::Upvar(body.upvars[i].var, body.upvars[i].name.clone()),
            ) {
                Err(v) => {
                    return Err(v);
                },
                Ok(()) => {},
            }
            i = i + 1;
        }
        let ghost s1 = fn_maps@;
        let mut j: usize = 0;
        while j < body.params.len()
            invariant
                j <= body.params.len(),
                fn_maps@.wf(),
                alloc_upvars(IrState::empty(), body.upvars@, 0) == Ok::<IrState, Violation>(s1),
                alloc_param_pats(s1, body.params@, 0) == alloc_param_pats(
                    fn_maps@,
                    body.params@,
                    j as nat,
                ),
            decreases body.params.len() - j,
        {
            match fn_maps.add_param(&body.params[j]) {
                Err(v) => {
                    return Err(v);
                },
                Ok(()) => {},
            }
            j = j + 1;
        }
        match fn_maps.visit_expr(&body.value) {
            Err(v) => Err(v),
            Ok(()) => Ok(fn_maps),
        }
    }
}

/// The variable declared by the binding `id`, if the tables know one.
pub open spec fn variable_of(st: IrState, id: u64) -> Result<Variable, Violation> {
    if st.vars.contains_key(id) {
        Ok(st.vars[id])
    } else {
        Err(Violation::NoVariable)
    }
}

/// The live node of the tree location `id`, if the tables know one.
pub open spec fn live_node_of(st: IrState, id: u64) -> Result<LiveNode, Violation> {
    if st.live.contains_key(id) {
        Ok(st.live[id])
    } else {
        Err(Violation::NoLiveNode)
    }
}

} // verus!
