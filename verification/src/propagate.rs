//! The second pass: the walk over a body, against the order of execution,
//! that fills the table of facts.

use crate::flow::{
    copied_row, flow_access, flow_arm, flow_arms, flow_body, flow_captures, flow_defs, flow_expr,
    flow_exprs, flow_fix, flow_opt, flow_place_components, flow_upvars, flow_write_place, kind_of,
    merged_row, param_vars, round_limit, round_source, start, vars_of, Access, Cx, Flow, Specials,
};
use crate::hir::{bindings, Arm, Body, Expr, ExprKind, Pat, Upvar};
use crate::ir_maps::{IrMaps, LiveNodeKind, Violation};
use crate::rwu::{invalid_node, LiveNode, RWUTable, Variable, RWU};
use std::collections::HashMap;
use vstd::prelude::*;

verus! {

broadcast use vstd::std_specs::hash::group_hash_axioms;

/// The walk over one body, with the tables it reads and the state it fills.
pub struct Liveness {
    pub ir: IrMaps,
    pub s: Specials,
    pub successors: Vec<LiveNode>,
    pub rwu_table: RWUTable,
    pub break_ln: HashMap<u64, LiveNode>,
    pub cont_ln: HashMap<u64, LiveNode>,
}

impl View for Liveness {
    type V = Flow;

    open spec fn view(&self) -> Flow {
        Flow {
            rows: self.rwu_table@,
            successors: self.successors@,
            break_ln: self.break_ln@,
            cont_ln: self.cont_ln@,
        }
    }
}

/// Whether a step of the walk that should lead to `expected` did.
pub open spec fn flowed(
    expected: Result<(Flow, LiveNode), Violation>,
    before: Liveness,
    now: Liveness,
    r: Result<LiveNode, Violation>,
) -> bool {
    match expected {
        Ok((f, ln)) => {
            &&& r == Ok::<LiveNode, Violation>(ln)
            &&& now@ == f
            &&& now.wf()
            &&& now.cx() == before.cx()
            &&& ln.0 < now.nodes()
        },
        Err(v) => r == Err::<LiveNode, Violation>(v),
    }
}

/// Whether a step of the walk that gives no node and should lead to
/// `expected` did.
pub open spec fn settled(
    expected: Result<Flow, Violation>,
    before: Liveness,
    now: Liveness,
    r: Result<(), Violation>,
) -> bool {
    match expected {
        Ok(f) => {
            &&& r is Ok
            &&& now@ == f
            &&& now.wf()
            &&& now.cx() == before.cx()
        },
        Err(v) => r == Err::<(), Violation>(v),
    }
}

impl Liveness {
    pub open spec fn cx(&self) -> Cx {
        Cx { ir: self.ir@, s: self.s }
    }

    /// The number of live nodes.
    pub open spec fn nodes(&self) -> nat {
        self.ir@.lnks.len()
    }

    /// The number of variables.
    pub open spec fn vars(&self) -> nat {
        self.ir@.var_kinds.len()
    }

    /// The table has a row for each live node and a column for each
    /// variable, and every node named anywhere exists.
    pub open spec fn wf(&self) -> bool {
        &&& self.ir@.wf()
        &&& self.rwu_table.wf()
        &&& self.rwu_table.live_nodes() == self.nodes()
        &&& self.rwu_table.vars() == self.vars()
        &&& self@.wf(self.nodes(), self.vars())
        &&& self.s.closure_ln.0 < self.nodes()
        &&& self.s.exit_ln.0 < self.nodes()
    }

    /// Adds the two special nodes to the tables of the first pass and makes
    /// the table of facts, all of them dead.
    pub fn new(ir: IrMaps) -> (r: Result<Liveness, Violation>)
        requires
            ir@.wf(),
        ensures
            match start(ir@) {
                Ok((cx, f)) => r is Ok && r->Ok_0.wf() && r->Ok_0.cx() == cx && r->Ok_0@ == f,
                Err(v) => r is Err && r->Err_0 == v,
            },
    {
        let mut ir = ir;
        let closure_ln = match ir.add_live_node(LiveNodeKind::ClosureNode) {
            Ok(ln) => ln,
            Err(v) => {
                return Err(v);
            },
        };
        let exit_ln = match ir.add_live_node(LiveNodeKind::ExitNode) {
            Ok(ln) => ln,
            Err(v) => {
                return Err(v);
            },
        };
        let num_live_nodes = ir.num_live_nodes();
        let num_vars = ir.num_vars();
        let rwu_table = match RWUTable::new(num_live_nodes, num_vars) {
            Some(t) => t,
            None => {
                return Err(Violation::TooLarge);
            },
        };
        let successors = vec![invalid_node(); num_live_nodes];
        let r = Liveness {
            ir,
            s: Specials { closure_ln, exit_ln },
            successors,
            rwu_table,
            break_ln: HashMap::new(),
            cont_ln: HashMap::new(),
        };
        proof {
            let f = Flow::empty(num_live_nodes as nat, num_vars as nat);
            assert(r@.successors =~= f.successors);
            assert(r@.break_ln =~= f.break_ln);
            assert(r@.cont_ln =~= f.cont_ln);
        }
        Ok(r)
    }

    /// The live node of a tree location.
    pub fn live_node(&self, hir_id: u64) -> (r: Result<LiveNode, Violation>)
        requires
            self.wf(),
        ensures
            r == crate::ir_maps::live_node_of(self.ir@, hir_id),
            r is Ok ==> r->Ok_0.0 < self.nodes(),
    {
        self.ir.live_node(hir_id)
    }

    /// The variable that a binding declares.
    pub fn variable(&self, hir_id: u64) -> (r: Result<Variable, Violation>)
        requires
            self.wf(),
        ensures
            r == crate::ir_maps::variable_of(self.ir@, hir_id),
            r is Ok ==> r->Ok_0.0 < self.vars(),
    {
        self.ir.variable(hir_id)
    }

    /// The kind of the node that reads the value `var` holds on entry to
    /// `ln`; `None` where nothing reads it.
    pub fn live_on_entry(&self, ln: LiveNode, var: Variable) -> (r: Option<LiveNodeKind>)
        requires
            self.wf(),
            ln.0 < self.nodes(),
            var.0 < self.vars(),
        ensures
            r == kind_of(self.ir@, self@.reader(ln, var)),
    {
        let reader = self.rwu_table.get_reader(ln, var);
        if reader.is_valid() {
            Some(self.ir.lnk(reader))
        } else {
            None
        }
    }

    /// The node that follows `ln`.
    pub fn successor(&self, ln: LiveNode) -> (r: Result<LiveNode, Violation>)
        requires
            self.wf(),
            ln.0 < self.nodes(),
        ensures
            r == self@.successor(ln),
            r is Ok ==> r->Ok_0.0 < self.nodes(),
    {
        proof {
            self.rwu_table.lemma_view();
        }
        let successor = self.successors[ln.get()];
        if successor.get() < self.ir.num_live_nodes() {
            Ok(successor)
        } else {
            Err(Violation::NoSuccessor)
        }
    }

    /// Whether `var` is live on entry to the node that follows `ln`.
    pub fn live_on_exit(&self, ln: LiveNode, var: Variable) -> (r: Result<
        Option<LiveNodeKind>,
        Violation,
    >)
        requires
            self.wf(),
            ln.0 < self.nodes(),
            var.0 < self.vars(),
        ensures
            r == match self@.successor(ln) {
                Ok(succ) => Ok::<Option<LiveNodeKind>, Violation>(
                    kind_of(self.ir@, self@.reader(succ, var)),
                ),
                Err(v) => Err::<Option<LiveNodeKind>, Violation>(v),
            },
    {
        let successor = self.successor(ln)?;
        Ok(self.live_on_entry(successor, var))
    }

    pub fn used_on_entry(&self, ln: LiveNode, var: Variable) -> (r: bool)
        requires
            self.wf(),
            ln.0 < self.nodes(),
            var.0 < self.vars(),
        ensures
            r == self@.used(ln, var),
    {
        self.rwu_table.get_used(ln, var)
    }

    /// The kind of the node that overwrites `var` after entry to `ln`.
    pub fn assigned_on_entry(&self, ln: LiveNode, var: Variable) -> (r: Option<LiveNodeKind>)
        requires
            self.wf(),
            ln.0 < self.nodes(),
            var.0 < self.vars(),
        ensures
            r == kind_of(self.ir@, self@.writer(ln, var)),
    {
        let writer = self.rwu_table.get_writer(ln, var);
        if writer.is_valid() {
            Some(self.ir.lnk(writer))
        } else {
            None
        }
    }

    pub fn assigned_on_exit(&self, ln: LiveNode, var: Variable) -> (r: Result<
        Option<LiveNodeKind>,
        Violation,
    >)
        requires
            self.wf(),
            ln.0 < self.nodes(),
            var.0 < self.vars(),
        ensures
            r == match self@.successor(ln) {
                Ok(succ) => Ok::<Option<LiveNodeKind>, Violation>(
                    kind_of(self.ir@, self@.writer(succ, var)),
                ),
                Err(v) => Err::<Option<LiveNodeKind>, Violation>(v),
            },
    {
        let successor = self.successor(ln)?;
        Ok(self.assigned_on_entry(successor, var))
    }

    /// The facts on entry to `ln`, one for each variable: a row of the
    /// table, for inspection.
    pub fn facts(&self, ln: LiveNode) -> (r: Vec<RWU>)
        requires
            self.wf(),
            ln.0 < self.nodes(),
        ensures
            r@ == self@.rows[ln.0 as int],
    {
        proof {
            self.rwu_table.lemma_view();
        }
        let num_vars = self.ir.num_vars();
        let mut row: Vec<RWU> = Vec::new();
        let mut i: usize = 0;
        while i < num_vars
            invariant
                i <= num_vars,
                num_vars == self.vars(),
                num_vars <= 0xFFFF_FFFF,
                self.wf(),
                ln.0 < self.nodes(),
                row@ == self@.rows[ln.0 as int].subrange(0, i as int),
            decreases num_vars - i,
        {
            row.push(self.rwu_table.get(ln, Variable(i as u32)));
            i = i + 1;
            assert(row@ =~= self@.rows[ln.0 as int].subrange(0, i as int));
        }
        assert(row@ =~= self@.rows[ln.0 as int]);
        row
    }

    /// Sets the successor of `ln` and leaves its facts alone: they start
    /// dead, and a round of a fixed point only ever adds to them.
    pub fn init_empty(&mut self, ln: LiveNode, succ_ln: LiveNode)
        requires
            old(self).wf(),
            ln.0 < old(self).nodes(),
        ensures
            final(self).wf(),
            final(self).cx() == old(self).cx(),
            final(self)@ == old(self)@.init_empty(ln, succ_ln),
    {
        proof {
            self.rwu_table.lemma_view();
        }
        self.successors.set(ln.get(), succ_ln);
    }

    /// Sets the successor of `ln` and copies the facts of the successor.
    pub fn init_from_succ(&mut self, ln: LiveNode, succ_ln: LiveNode)
        requires
            old(self).wf(),
            ln.0 < old(self).nodes(),
            succ_ln.0 < old(self).nodes(),
        ensures
            final(self).wf(),
            final(self).cx() == old(self).cx(),
            final(self)@ == old(self)@.init_from_succ(ln, succ_ln),
    {
        proof {
            self.rwu_table.lemma_view();
        }
        self.successors.set(ln.get(), succ_ln);
        let num_vars = self.ir.num_vars();
        let ghost rows0 = self.rwu_table@;
        let ghost n = self.nodes();
        let ghost start = *self;
        let mut i: usize = 0;
        assert(self.rwu_table@ =~~= rows0.update(
            ln.0 as int,
            copied_row(rows0[ln.0 as int], rows0[succ_ln.0 as int], 0),
        ));
        while i < num_vars
            invariant
                i <= num_vars,
                num_vars == self.rwu_table.vars(),
                num_vars <= 0xFFFF_FFFF,
                n == self.rwu_table.live_nodes(),
                self.rwu_table.wf(),
                ln.0 < n,
                succ_ln.0 < n,
                rows0.len() == n,
                forall|l: int| 0 <= l < n ==> (#[trigger] rows0[l]).len() == num_vars,
                self.rwu_table@ == rows0.update(
                    ln.0 as int,
                    copied_row(rows0[ln.0 as int], rows0[succ_ln.0 as int], i as int),
                ),
                *self == (Liveness { rwu_table: self.rwu_table, ..start }),
            decreases num_vars - i,
        {
            self.rwu_table.copy_packed(ln, succ_ln, Variable(i as u32));
            i = i + 1;
            assert(self.rwu_table@ =~~= rows0.update(
                ln.0 as int,
                copied_row(rows0[ln.0 as int], rows0[succ_ln.0 as int], i as int),
            ));
        }
        assert(self.rwu_table@ =~~= rows0.update(ln.0 as int, rows0[succ_ln.0 as int]));
    }

    /// Adds the facts of `succ_ln` to those of `ln`, and says whether that
    /// changed any.
    pub fn merge_from_succ(&mut self, ln: LiveNode, succ_ln: LiveNode) -> (r: bool)
        requires
            old(self).wf(),
            ln.0 < old(self).nodes(),
            succ_ln.0 < old(self).nodes(),
        ensures
            final(self).wf(),
            final(self).cx() == old(self).cx(),
            final(self)@ == old(self)@.merge_from_succ(ln, succ_ln),
            r == (final(self)@.rows != old(self)@.rows),
    {
        proof {
            self.rwu_table.lemma_view();
        }
        if ln == succ_ln {
            return false;
        }
        let mut any_changed = false;
        let num_vars = self.ir.num_vars();
        let ghost rows0 = self.rwu_table@;
        let ghost n = self.nodes();
        let mut i: usize = 0;
        assert(merged_row(rows0[ln.0 as int], rows0[succ_ln.0 as int], 0) =~= rows0[ln.0 as int]);
        assert(self.rwu_table@ =~~= rows0.update(ln.0 as int, rows0[ln.0 as int]));
        while i < num_vars
            invariant
                i <= num_vars,
                num_vars == self.rwu_table.vars(),
                num_vars <= 0xFFFF_FFFF,
                n == self.rwu_table.live_nodes(),
                self.rwu_table.wf(),
                ln.0 < n,
                succ_ln.0 < n,
                ln != succ_ln,
                rows0.len() == n,
                forall|l: int| 0 <= l < n ==> (#[trigger] rows0[l]).len() == num_vars,
                self.rwu_table@ == rows0.update(
                    ln.0 as int,
                    merged_row(rows0[ln.0 as int], rows0[succ_ln.0 as int], i as int),
                ),
                any_changed == (merged_row(rows0[ln.0 as int], rows0[succ_ln.0 as int], i as int)
                    != rows0[ln.0 as int]),
                *self == (Liveness { rwu_table: self.rwu_table, ..*old(self) }),
            decreases num_vars - i,
        {
            let var = Variable(i as u32);
            let ghost before = merged_row(rows0[ln.0 as int], rows0[succ_ln.0 as int], i as int);
            let ghost after = merged_row(
                rows0[ln.0 as int],
                rows0[succ_ln.0 as int],
                i as int + 1,
            );
            // Most facts of a successor are dead and unused, and add nothing.
            if !self.rwu_table.is_dead_unused(succ_ln, var) {
                let mut changed = false;
                let mut rwu = self.rwu_table.get(ln, var);
                let succ_rwu = self.rwu_table.get(succ_ln, var);
                if succ_rwu.reader.is_valid() && !rwu.reader.is_valid() {
                    rwu.reader = succ_rwu.reader;
                    changed = true;
                }
                if succ_rwu.writer.is_valid() && !rwu.writer.is_valid() {
                    rwu.writer = succ_rwu.writer;
                    changed = true;
                }
                if succ_rwu.used && !rwu.used {
                    rwu.used = true;
                    changed = true;
                }
                if changed {
                    self.rwu_table.assign_unpacked(ln, var, rwu);
                    any_changed = true;
                }
            }
            proof {
                assert(self.rwu_table@ =~~= rows0.update(ln.0 as int, after));
                if after[i as int] == rows0[ln.0 as int][i as int] {
                    assert(after =~= before);
                } else {
                    assert(after != rows0[ln.0 as int]);
                }
                if before != rows0[ln.0 as int] {
                    assert(!(before =~= rows0[ln.0 as int]));
                    let k = choose|k: int|
                        0 <= k < num_vars && before[k] != rows0[ln.0 as int][k];
                    assert(after[k] == before[k]);
                }
            }
            i = i + 1;
        }
        proof {
            let full = merged_row(
                rows0[ln.0 as int],
                rows0[succ_ln.0 as int],
                num_vars as int,
            );
            if full == rows0[ln.0 as int] {
                assert(self.rwu_table@ =~~= rows0);
            } else {
                assert(self.rwu_table@[ln.0 as int] == full);
            }
        }
        any_changed
    }

    /// A variable is defined at `writer`: no use of it can come before, so
    /// what was known of it is cleared.
    pub fn define(&mut self, writer: LiveNode, var: Variable)
        requires
            old(self).wf(),
            writer.0 < old(self).nodes(),
            var.0 < old(self).vars(),
        ensures
            final(self).wf(),
            final(self).cx() == old(self).cx(),
            final(self)@ == old(self)@.define(writer, var),
    {
        proof {
            self.rwu_table.lemma_view();
        }
        self.rwu_table.assign_inv_inv(writer, var);
    }

    /// A variable is read, written or both at `ln`.
    pub fn acc(&mut self, ln: LiveNode, var: Variable, acc: Access)
        requires
            old(self).wf(),
            ln.0 < old(self).nodes(),
            var.0 < old(self).vars(),
        ensures
            final(self).wf(),
            final(self).cx() == old(self).cx(),
            final(self)@ == old(self)@.acc(ln, var, acc),
    {
        proof {
            self.rwu_table.lemma_view();
        }
        let mut rwu = self.rwu_table.get(ln, var);
        let (reads, writes, uses) = match acc {
            Access::ReadUse => (true, false, true),
            Access::Write => (false, true, false),
            Access::ReadWrite => (true, true, false),
        };
        if writes {
            rwu.reader = invalid_node();
            rwu.writer = ln;
        }
        // A read comes second: where both happen, the variable is read here.
        if reads {
            rwu.reader = ln;
        }
        if uses {
            rwu.used = true;
        }
        self.rwu_table.assign_unpacked(ln, var, rwu);
    }
}

/// The variables of a closure that each call defines anew, if the closure
/// can be called again.
pub open spec fn reentry_of(reentry: Option<&Vec<Variable>>) -> Option<Seq<Variable>> {
    match reentry {
        None => None,
        Some(vars) => Some(vars@),
    }
}

impl Liveness {
    /// A read or write of a local variable by the expression `hir_id`.
    pub fn access_var(&mut self, hir_id: u64, var_hid: u64, succ: LiveNode, acc: Access) -> (r:
        Result<LiveNode, Violation>)
        requires
            old(self).wf(),
            succ.0 < old(self).nodes(),
        ensures
            flowed(
                flow_access(old(self).cx(), old(self)@, hir_id, var_hid, succ, acc),
                *old(self),
                *final(self),
                r,
            ),
    {
        let ln = self.live_node(hir_id)?;
        let var = self.variable(var_hid)?;
        self.init_from_succ(ln, succ);
        self.acc(ln, var, acc);
        Ok(ln)
    }

    /// The bindings of a pattern are definitions. In an or-pattern only the
    /// first alternative counts: the others bind the same names.
    pub fn define_bindings_in_pat(&mut self, pat: &Pat, succ: LiveNode) -> (r: Result<
        LiveNode,
        Violation,
    >)
        requires
            old(self).wf(),
            succ.0 < old(self).nodes(),
        ensures
            flowed(
                flow_defs(old(self).cx(), old(self)@, bindings(*pat, true), 0, succ),
                *old(self),
                *final(self),
                r,
            ),
    {
        let bs = pat.bindings();
        let mut cur = succ;
        let mut i: usize = 0;
        while i < bs.len()
            invariant
                i <= bs.len(),
                bs@ == bindings(*pat, true),
                self.wf(),
                self.cx() == old(self).cx(),
                cur.0 < self.nodes(),
                flow_defs(old(self).cx(), old(self)@, bs@, 0, succ) == flow_defs(
                    self.cx(),
                    self@,
                    bs@,
                    i as nat,
                    cur,
                ),
            decreases bs.len() - i,
        {
            if bs[i].first {
                let ln = self.live_node(bs[i].id)?;
                let var = self.variable(bs[i].id)?;
                self.init_from_succ(ln, cur);
                self.define(ln, var);
                cur = ln;
            }
            i = i + 1;
        }
        Ok(cur)
    }

    fn propagate_through_captures(&mut self, hir_id: u64, succ: LiveNode) -> (r: Result<
        LiveNode,
        Violation,
    >)
        requires
            old(self).wf(),
            succ.0 < old(self).nodes(),
        ensures
            flowed(
                if old(self).cx().ir.caps.contains_key(hir_id) {
                    flow_captures(
                        old(self).cx(),
                        old(self)@,
                        old(self).cx().ir.caps[hir_id],
                        old(self).cx().ir.caps[hir_id].len(),
                        succ,
                    )
                } else {
                    Err(Violation::NoCaptures)
                },
                *old(self),
                *final(self),
                r,
            ),
    {
        let caps = match self.ir.captures(hir_id) {
            Ok(caps) => caps,
            Err(v) => {
                return Err(v);
            },
        };
        let mut cur = succ;
        let mut i: usize = caps.len();
        while i > 0
            invariant
                i <= caps.len(),
                self.cx().ir.caps.contains_key(hir_id),
                caps@ == self.cx().ir.caps[hir_id],
                self.wf(),
                self.cx() == old(self).cx(),
                cur.0 < self.nodes(),
                flow_captures(old(self).cx(), old(self)@, caps@, caps@.len(), succ)
                    == flow_captures(self.cx(), self@, caps@, i as nat, cur),
            decreases i,
        {
            i = i - 1;
            let cap = caps[i];
            assert(self.ir@.caps[hir_id][i as int].ln.0 < self.nodes());
            let var = self.variable(cap.var_hid)?;
            self.init_from_succ(cap.ln, cur);
            self.acc(cap.ln, var, Access::ReadUse);
            cur = cap.ln;
        }
        Ok(cur)
    }

    /// The write to the place of an assignment.
    pub fn write_place(&mut self, expr: &Expr, succ: LiveNode, acc: Access) -> (r: Result<
        LiveNode,
        Violation,
    >)
        requires
            old(self).wf(),
            succ.0 < old(self).nodes(),
        ensures
            flowed(
                flow_write_place(old(self).cx(), old(self)@, *expr, succ, acc),
                *old(self),
                *final(self),
                r,
            ),
    {
        match &expr.kind {
            ExprKind::Local(var) => self.access_var(expr.id, *var, succ, acc),
            // Other places are not tracked: what they are made of is read
            // when their components are walked.
            _ => Ok(succ),
        }
    }

    /// The components of the place of an assignment: for `x.f = ..` or
    /// `x[i] = ..` the value written is ignored, and `x` and `i` are read.
    pub fn propagate_through_place_components(&mut self, expr: &Expr, succ: LiveNode) -> (r:
        Result<LiveNode, Violation>)
        requires
            old(self).wf(),
            succ.0 < old(self).nodes(),
        ensures
            flowed(
                flow_place_components(old(self).cx(), old(self)@, *expr, succ),
                *old(self),
                *final(self),
                r,
            ),
        decreases expr, 1nat,
    {
        match &expr.kind {
            ExprKind::Local(_) => Ok(succ),
            _ => self.propagate_through_expr(expr, succ),
        }
    }

    pub fn propagate_through_opt_expr(&mut self, opt_expr: &Option<Box<Expr>>, succ: LiveNode) -> (r:
        Result<LiveNode, Violation>)
        requires
            old(self).wf(),
            succ.0 < old(self).nodes(),
        ensures
            flowed(
                flow_opt(old(self).cx(), old(self)@, *opt_expr, succ),
                *old(self),
                *final(self),
                r,
            ),
        decreases opt_expr, 0nat,
    {
        match opt_expr {
            Some(expr) => self.propagate_through_expr(expr, succ),
            None => Ok(succ),
        }
    }

    /// Walks expressions that are evaluated one after the other, the last
    /// one first.
    pub fn propagate_through_exprs(&mut self, exprs: &Vec<Expr>, succ: LiveNode) -> (r: Result<
        LiveNode,
        Violation,
    >)
        requires
            old(self).wf(),
            succ.0 < old(self).nodes(),
        ensures
            flowed(
                flow_exprs(old(self).cx(), old(self)@, exprs@, exprs@.len(), succ),
                *old(self),
                *final(self),
                r,
            ),
        decreases exprs, 1nat,
    {
        let mut cur = succ;
        let mut i: usize = exprs.len();
        while i > 0
            invariant
                i <= exprs.len(),
                self.wf(),
                self.cx() == old(self).cx(),
                cur.0 < self.nodes(),
                flow_exprs(old(self).cx(), old(self)@, exprs@, exprs@.len(), succ) == flow_exprs(
                    self.cx(),
                    self@,
                    exprs@,
                    i as nat,
                    cur,
                ),
            decreases i,
        {
            i = i - 1;
            proof {
                assert(decreases_to!(*exprs => exprs[i as int]));
            }
            cur = self.propagate_through_expr(&exprs[i], cur)?;
        }
        Ok(cur)
    }

    /// One arm of a match: body, guard and bindings against the state after
    /// the match, then the merge into the node of the match.
    pub fn propagate_through_arm(&mut self, arm: &Arm, ln: LiveNode, succ: LiveNode) -> (r: Result<
        (),
        Violation,
    >)
        requires
            old(self).wf(),
            ln.0 < old(self).nodes(),
            succ.0 < old(self).nodes(),
        ensures
            settled(
                flow_arm(old(self).cx(), old(self)@, *arm, ln, succ),
                *old(self),
                *final(self),
                r,
            ),
        decreases arm, 0nat,
    {
        let body_succ = match self.propagate_through_expr(&arm.body, succ) {
            Ok(s) => s,
            Err(v) => {
                return Err(v);
            },
        };
        let guard_succ = match &arm.guard {
            Some(g) => match self.propagate_through_expr(g, body_succ) {
                Ok(s) => s,
                Err(v) => {
                    return Err(v);
                },
            },
            None => body_succ,
        };
        let arm_succ = match self.define_bindings_in_pat(&arm.pat, guard_succ) {
            Ok(s) => s,
            Err(v) => {
                return Err(v);
            },
        };
        self.merge_from_succ(ln, arm_succ);
        Ok(())
    }

    fn propagate_through_arms(&mut self, arms: &Vec<Arm>, ln: LiveNode, succ: LiveNode) -> (r:
        Result<(), Violation>)
        requires
            old(self).wf(),
            ln.0 < old(self).nodes(),
            succ.0 < old(self).nodes(),
        ensures
            settled(
                flow_arms(old(self).cx(), old(self)@, arms@, 0, ln, succ),
                *old(self),
                *final(self),
                r,
            ),
        decreases arms, 1nat,
    {
        let mut i: usize = 0;
        while i < arms.len()
            invariant
                i <= arms.len(),
                self.wf(),
                self.cx() == old(self).cx(),
                ln.0 < self.nodes(),
                succ.0 < self.nodes(),
                flow_arms(old(self).cx(), old(self)@, arms@, 0, ln, succ) == flow_arms(
                    self.cx(),
                    self@,
                    arms@,
                    i as nat,
                    ln,
                    succ,
                ),
            decreases arms.len() - i,
        {
            proof {
                assert(decreases_to!(*arms => arms[i as int]));
            }
            self.propagate_through_arm(&arms[i], ln, succ)?;
            i = i + 1;
        }
        Ok(())
    }

    fn define_all(&mut self, ln: LiveNode, vars: &Vec<Variable>)
        requires
            old(self).wf(),
            ln.0 < old(self).nodes(),
            forall|i: int| 0 <= i < vars@.len() ==> (#[trigger] vars@[i]).0 < old(self).vars(),
        ensures
            final(self).wf(),
            final(self).cx() == old(self).cx(),
            final(self)@ == old(self)@.define_all(ln, vars@, 0),
    {
        let mut i: usize = 0;
        while i < vars.len()
            invariant
                i <= vars.len(),
                self.wf(),
                self.cx() == old(self).cx(),
                ln.0 < self.nodes(),
                forall|i: int| 0 <= i < vars@.len() ==> (#[trigger] vars@[i]).0 < self.vars(),
                old(self)@.define_all(ln, vars@, 0) == self@.define_all(ln, vars@, i as nat),
            decreases vars.len() - i,
        {
            self.define(ln, vars[i]);
            i = i + 1;
        }
    }

    /// Iterates a loop, or a closure that can run again, until a round
    /// changes nothing.
    ///
    /// `body` was propagated against `target` and gave `entry`. A round
    /// merges the facts on entry into `target` and, if that changed any,
    /// propagates `body` again. For a closure, `reentry` holds the variables
    /// of its parameters: the facts on entry first go to the closure node,
    /// where the parameters are defined, and are merged from there.
    pub fn iterate_until_stable(
        &mut self,
        body: &Expr,
        target: LiveNode,
        entry: LiveNode,
        reentry: Option<&Vec<Variable>>,
    ) -> (r: Result<(), Violation>)
        requires
            old(self).wf(),
            target.0 < old(self).nodes(),
            entry.0 < old(self).nodes(),
            reentry is Some ==> forall|i: int|
                0 <= i < reentry->Some_0@.len() ==> (#[trigger] reentry->Some_0@[i]).0 < old(
                    self,
                ).vars(),
        ensures
            settled(
                flow_fix(
                    old(self).cx(),
                    old(self)@,
                    *body,
                    target,
                    entry,
                    reentry_of(reentry),
                    round_limit(old(self).cx()),
                ),
                *old(self),
                *final(self),
                r,
            ),
        decreases body, 1nat,
    {
        let limit: u64 = 3 * (self.ir.num_vars() as u64);
        let mut rounds: u64 = 0;
        loop
            invariant
                rounds <= limit,
                limit == round_limit(old(self).cx()),
                self.wf(),
                self.cx() == old(self).cx(),
                target.0 < self.nodes(),
                entry.0 < self.nodes(),
                reentry is Some ==> forall|i: int|
                    0 <= i < reentry->Some_0@.len() ==> (#[trigger] reentry->Some_0@[i]).0
                        < self.vars(),
                flow_fix(
                    old(self).cx(),
                    old(self)@,
                    *body,
                    target,
                    entry,
                    reentry_of(reentry),
                    limit as nat,
                ) == flow_fix(
                    self.cx(),
                    self@,
                    *body,
                    target,
                    entry,
                    reentry_of(reentry),
                    (limit - rounds) as nat,
                ),
            decreases limit - rounds,
        {
            let source = match reentry {
                None => entry,
                Some(vars) => {
                    let closure_ln = self.s.closure_ln;
                    self.init_from_succ(closure_ln, entry);
                    self.define_all(closure_ln, vars);
                    closure_ln
                },
            };
            assert(source == round_source(self.cx(), entry, reentry_of(reentry)));
            if !self.merge_from_succ(target, source) {
                return Ok(());
            }
            if rounds >= limit {
                return Err(Violation::NotConverged);
            }
            rounds = rounds + 1;
            let again = self.propagate_through_expr(body, target)?;
            if again != entry {
                return Err(Violation::EntryMoved);
            }
        }
    }

    /// A loop: its node collects what is live at the top of the body, the
    /// body follows the node, and the body is walked until the node's facts
    /// stop growing. A `continue` goes to the node, a `break` to what comes
    /// after the loop.
    pub fn propagate_through_loop(&mut self, expr: &Expr, body: &Expr, succ: LiveNode) -> (r:
        Result<LiveNode, Violation>)
        requires
            old(self).wf(),
            succ.0 < old(self).nodes(),
            expr.kind is Loop,
            *expr.kind->Loop_0 == *body,
        ensures
            flowed(
                flow_expr(old(self).cx(), old(self)@, *expr, succ),
                *old(self),
                *final(self),
                r,
            ),
        decreases body, 2nat,
    {
        let ln = self.live_node(expr.id)?;
        self.init_empty(ln, succ);
        self.break_ln.insert(expr.id, succ);
        self.cont_ln.insert(expr.id, ln);
        let body_ln = self.propagate_through_expr(body, ln)?;
        match self.iterate_until_stable(body, ln, body_ln, None) {
            Ok(()) => Ok(ln),
            Err(v) => Err(v),
        }
    }

    /// Walks an expression against the order of execution: `succ` stands
    /// for what happens after it, the result for its entry.
    pub fn propagate_through_expr(&mut self, expr: &Expr, succ: LiveNode) -> (r: Result<
        LiveNode,
        Violation,
    >)
        requires
            old(self).wf(),
            succ.0 < old(self).nodes(),
        ensures
            flowed(
                flow_expr(old(self).cx(), old(self)@, *expr, succ),
                *old(self),
                *final(self),
                r,
            ),
        decreases expr, 0nat,
    {
        match &expr.kind {
            ExprKind::Local(var) => self.access_var(expr.id, *var, succ, Access::ReadUse),
            ExprKind::Compound(exprs, diverges) => {
                // Control does not come back from a call that has no value.
                let succ = if *diverges {
                    self.s.exit_ln
                } else {
                    succ
                };
                proof {
                    assert(decreases_to!(expr => expr.kind));
                    assert(decreases_to!(expr.kind => expr.kind->Compound_0));
                }
                self.propagate_through_exprs(exprs, succ)
            },
            ExprKind::Lazy(l, r) => {
                // The left operand always runs, the right one on some paths
                // only: both what follows and the right operand feed the
                // node.
                let r_succ = self.propagate_through_expr(r, succ)?;
                let ln = self.live_node(expr.id)?;
                self.init_from_succ(ln, succ);
                self.merge_from_succ(ln, r_succ);
                self.propagate_through_expr(l, ln)
            },
            ExprKind::Assign(l, r) => {
                let succ = self.write_place(l, succ, Access::Write)?;
                let succ = self.propagate_through_place_components(l, succ)?;
                self.propagate_through_expr(r, succ)
            },
            ExprKind::AssignOp(l, r) => {
                let succ = self.write_place(l, succ, Access::ReadWrite)?;
                let succ = self.propagate_through_expr(r, succ)?;
                self.propagate_through_place_components(l, succ)
            },
            ExprKind::Let(pat, init) => {
                // The variable counts as defined whether or not there is an
                // initializer: in `loop { let x; x = 5; }` the assignment
                // must not reach around the loop to itself.
                let succ = self.propagate_through_opt_expr(init, succ)?;
                self.define_bindings_in_pat(pat, succ)
            },
            ExprKind::Block(exprs, targeted_by_break) => {
                if *targeted_by_break {
                    self.break_ln.insert(expr.id, succ);
                }
                proof {
                    assert(decreases_to!(expr => expr.kind));
                    assert(decreases_to!(expr.kind => expr.kind->Block_0));
                }
                self.propagate_through_exprs(exprs, succ)
            },
            ExprKind::Loop(body) => self.propagate_through_loop(expr, body, succ),
            ExprKind::Match(scrutinee, arms) => {
                let ln = self.live_node(expr.id)?;
                self.init_empty(ln, succ);
                proof {
                    assert(decreases_to!(expr => expr.kind));
                    assert(decreases_to!(expr.kind => expr.kind->Match_1));
                }
                match self.propagate_through_arms(arms, ln, succ) {
                    Ok(()) => {},
                    Err(v) => {
                        return Err(v);
                    },
                }
                self.propagate_through_expr(scrutinee, ln)
            },
            ExprKind::Ret(value) => {
                let exit_ln = self.s.exit_ln;
                self.propagate_through_opt_expr(value, exit_ln)
            },
            ExprKind::Break(target, value) => {
                let target_id = match target {
                    Some(id) => *id,
                    None => {
                        return Err(Violation::UnresolvedBreak);
                    },
                };
                let b = match self.break_ln.get(&target_id) {
                    Some(b) => *b,
                    None => {
                        return Err(Violation::UnresolvedBreak);
                    },
                };
                self.propagate_through_opt_expr(value, b)
            },
            ExprKind::Continue(target) => {
                let target_id = match target {
                    Some(id) => *id,
                    None => {
                        return Err(Violation::UnresolvedContinue);
                    },
                };
                match self.cont_ln.get(&target_id) {
                    Some(c) => Ok(*c),
                    None => Err(Violation::UnresolvedContinue),
                }
            },
            ExprKind::Closure(_) => {
                // Making a closure does nothing by itself, but it reads the
                // variables that it captures.
                self.propagate_through_captures(expr.id, succ)
            },
        }
    }

    fn pattern_variables(&self, pat: &Pat, out: &mut Vec<Variable>) -> (r: Result<(), Violation>)
        requires
            self.wf(),
            forall|i: int| 0 <= i < old(out)@.len() ==> (#[trigger] old(out)@[i]).0 < self.vars(),
        ensures
            match vars_of(self.ir@, bindings(*pat, true), 0, old(out)@) {
                Ok(vars) => r is Ok && final(out)@ == vars,
                Err(v) => r == Err::<(), Violation>(v),
            },
            forall|i: int| 0 <= i < final(out)@.len() ==> (#[trigger] final(out)@[i]).0 < self.vars(),
    {
        let bs = pat.bindings();
        let mut i: usize = 0;
        while i < bs.len()
            invariant
                i <= bs.len(),
                bs@ == bindings(*pat, true),
                self.wf(),
                forall|i: int| 0 <= i < out@.len() ==> (#[trigger] out@[i]).0 < self.vars(),
                vars_of(self.ir@, bs@, 0, old(out)@) == vars_of(self.ir@, bs@, i as nat, out@),
            decreases bs.len() - i,
        {
            if bs[i].first {
                let var = match self.variable(bs[i].id) {
                    Ok(var) => var,
                    Err(v) => {
                        return Err(v);
                    },
                };
                out.push(var);
            }
            i = i + 1;
        }
        Ok(())
    }

    /// The variables that the parameters of a body declare.
    pub fn param_variables(&self, params: &Vec<Pat>) -> (r: Result<Vec<Variable>, Violation>)
        requires
            self.wf(),
        ensures
            match param_vars(self.ir@, params@, 0, Seq::empty()) {
                Ok(vars) => r is Ok && r->Ok_0@ == vars,
                Err(v) => r is Err && r->Err_0 == v,
            },
            r is Ok ==> forall|i: int|
                0 <= i < r->Ok_0@.len() ==> (#[trigger] r->Ok_0@[i]).0 < self.vars(),
    {
        let mut out: Vec<Variable> = Vec::new();
        let mut i: usize = 0;
        while i < params.len()
            invariant
                i <= params.len(),
                self.wf(),
                forall|i: int| 0 <= i < out@.len() ==> (#[trigger] out@[i]).0 < self.vars(),
                param_vars(self.ir@, params@, 0, Seq::empty()) == param_vars(
                    self.ir@,
                    params@,
                    i as nat,
                    out@,
                ),
            decreases params.len() - i,
        {
            match self.pattern_variables(&params[i], &mut out) {
                Ok(()) => {},
                Err(v) => {
                    return Err(v);
                },
            }
            i = i + 1;
        }
        Ok(out)
    }

    fn propagate_through_upvars(&mut self, upvars: &Vec<Upvar>) -> (r: Result<(), Violation>)
        requires
            old(self).wf(),
        ensures
            settled(
                flow_upvars(old(self).cx(), old(self)@, upvars@, upvars@.len()),
                *old(self),
                *final(self),
                r,
            ),
    {
        let mut i: usize = upvars.len();
        while i > 0
            invariant
                i <= upvars.len(),
                self.wf(),
                self.cx() == old(self).cx(),
                flow_upvars(old(self).cx(), old(self)@, upvars@, upvars@.len()) == flow_upvars(
                    self.cx(),
                    self@,
                    upvars@,
                    i as nat,
                ),
            decreases i,
        {
            i = i - 1;
            if upvars[i].by_ref {
                let var = match self.variable(upvars[i].var) {
                    Ok(var) => var,
                    Err(v) => {
                        return Err(v);
                    },
                };
                let exit_ln = self.s.exit_ln;
                self.acc(exit_ln, var, Access::ReadUse);
            }
        }
        Ok(())
    }

    /// Computes the facts of a whole body and gives its entry node.
    ///
    /// How a captured variable lives on depends on how it is captured and on
    /// what may call the closure. One captured by reference counts as used
    /// when the closure exits. One captured by value is dead when a closure
    /// that runs once exits; in a closure that can run again it is live on
    /// exit if it is live on entry, since only the closure itself reaches it
    /// between calls.
    pub fn compute(&mut self, body: &Body) -> (r: Result<LiveNode, Violation>)
        requires
            old(self).wf(),
        ensures
            flowed(flow_body(old(self).cx(), old(self)@, *body), *old(self), *final(self), r),
    {
        match self.propagate_through_upvars(&body.upvars) {
            Ok(()) => {},
            Err(v) => {
                return Err(v);
            },
        }
        let exit_ln = self.s.exit_ln;
        let succ = self.propagate_through_expr(&body.value, exit_ln)?;
        if !body.kind.is_reentrant() {
            return Ok(succ);
        }
        // Propagate through calls to the closure.
        let vars = match self.param_variables(&body.params) {
            Ok(vars) => vars,
            Err(v) => {
                return Err(v);
            },
        };
        match self.iterate_until_stable(&body.value, exit_ln, succ, Some(&vars)) {
            Ok(()) => Ok(succ),
            Err(v) => Err(v),
        }
    }
}

} // verus!
