//! What it means for the tables of the first pass to number a tree soundly,
//! and that they do whenever no id occurs twice in the tree.

use crate::hir::{bindings, Arm, Binding, Body, Expr, ExprKind, Upvar};
use crate::ir_maps::{
    alloc_arm, alloc_arms, alloc_bindings, alloc_body, alloc_captures, alloc_expr, alloc_exprs,
    alloc_opt, alloc_param_pats, alloc_params, alloc_upvars, CaptureInfo, IrState, Violation,
};
use vstd::prelude::*;

verus! {

/// The ids of the bindings among `bs` that declare a variable.
pub open spec fn binding_ids(bs: Seq<Binding>) -> Set<u64> {
    Set::new(|id: u64| exists|i: int| 0 <= i < bs.len() && bs[i].first && #[trigger] bs[i].id == id)
}

/// The ids under which the walk over an expression records a live node or
/// a variable.
pub open spec fn ids_of(e: Expr) -> Set<u64>
    decreases e, 0nat,
{
    match e.kind {
        ExprKind::Local(_) => set![e.id],
        ExprKind::Compound(es, _) => ids_of_exprs(es@),
        ExprKind::Lazy(l, r) => ids_of(*l).union(ids_of(*r)).insert(e.id),
        ExprKind::Assign(l, r) => ids_of(*l).union(ids_of(*r)),
        ExprKind::AssignOp(l, r) => ids_of(*l).union(ids_of(*r)),
        ExprKind::Let(pat, init) => binding_ids(bindings(pat, true)).union(ids_of_opt(init)),
        ExprKind::Block(es, _) => ids_of_exprs(es@),
        ExprKind::Loop(body) => ids_of(*body).insert(e.id),
        ExprKind::Match(scrutinee, arms) => ids_of(*scrutinee).union(ids_of_arms(arms@)).insert(
            e.id,
        ),
        ExprKind::Ret(value) => ids_of_opt(value),
        ExprKind::Break(_, value) => ids_of_opt(value),
        ExprKind::Continue(_) => Set::empty(),
        ExprKind::Closure(_) => set![e.id],
    }
}

pub open spec fn ids_of_opt(o: Option<Box<Expr>>) -> Set<u64>
    decreases o, 0nat,
{
    match o {
        Some(e) => ids_of(*e),
        None => Set::empty(),
    }
}

pub open spec fn ids_of_exprs(es: Seq<Expr>) -> Set<u64>
    decreases es, 1nat,
{
    Set::new(|id: u64| exists|i: int| 0 <= i < es.len() && ids_of(#[trigger] es[i]).contains(id))
}

pub open spec fn ids_of_arm(arm: Arm) -> Set<u64>
    decreases arm, 0nat,
{
    binding_ids(bindings(arm.pat, true)).union(
        match arm.guard {
            Some(g) => ids_of(g),
            None => Set::empty(),
        },
    ).union(ids_of(arm.body))
}

pub open spec fn ids_of_arms(arms: Seq<Arm>) -> Set<u64>
    decreases arms, 1nat,
{
    Set::new(
        |id: u64| exists|i: int| 0 <= i < arms.len() && ids_of_arm(#[trigger] arms[i]).contains(id),
    )
}

/// No two bindings among `bs` that declare a variable have the same id.
pub open spec fn distinct_bindings(bs: Seq<Binding>) -> bool {
    forall|i: int, j: int|
        0 <= i < j < bs.len() && bs[i].first && bs[j].first ==> bs[i].id != bs[j].id
}

/// No id occurs twice among those under which the walk over an expression
/// records something.
pub open spec fn distinct(e: Expr) -> bool
    decreases e, 0nat,
{
    match e.kind {
        ExprKind::Local(_) => true,
        ExprKind::Compound(es, _) => distinct_exprs(es@),
        ExprKind::Lazy(l, r) => {
            &&& distinct(*l)
            &&& distinct(*r)
            &&& ids_of(*l).disjoint(ids_of(*r))
            &&& !ids_of(*l).contains(e.id)
            &&& !ids_of(*r).contains(e.id)
        },
        ExprKind::Assign(l, r) => distinct(*l) && distinct(*r) && ids_of(*l).disjoint(ids_of(*r)),
        ExprKind::AssignOp(l, r) => distinct(*l) && distinct(*r) && ids_of(*l).disjoint(
            ids_of(*r),
        ),
        ExprKind::Let(pat, init) => {
            &&& distinct_bindings(bindings(pat, true))
            &&& distinct_opt(init)
            &&& binding_ids(bindings(pat, true)).disjoint(ids_of_opt(init))
        },
        ExprKind::Block(es, _) => distinct_exprs(es@),
        ExprKind::Loop(body) => distinct(*body) && !ids_of(*body).contains(e.id),
        ExprKind::Match(scrutinee, arms) => {
            &&& distinct(*scrutinee)
            &&& distinct_arms(arms@)
            &&& ids_of(*scrutinee).disjoint(ids_of_arms(arms@))
            &&& !ids_of(*scrutinee).contains(e.id)
            &&& !ids_of_arms(arms@).contains(e.id)
        },
        ExprKind::Ret(value) => distinct_opt(value),
        ExprKind::Break(_, value) => distinct_opt(value),
        ExprKind::Continue(_) => true,
        ExprKind::Closure(_) => true,
    }
}

pub open spec fn distinct_opt(o: Option<Box<Expr>>) -> bool
    decreases o, 0nat,
{
    match o {
        Some(e) => distinct(*e),
        None => true,
    }
}

pub open spec fn distinct_exprs(es: Seq<Expr>) -> bool
    decreases es, 1nat,
{
    &&& forall|i: int| 0 <= i < es.len() ==> distinct(#[trigger] es[i])
    &&& forall|i: int, j: int|
        0 <= i < j < es.len() ==> ids_of(#[trigger] es[i]).disjoint(ids_of(#[trigger] es[j]))
}

pub open spec fn distinct_arm(arm: Arm) -> bool
    decreases arm, 0nat,
{
    &&& distinct_bindings(bindings(arm.pat, true))
    &&& distinct(arm.body)
    &&& binding_ids(bindings(arm.pat, true)).disjoint(ids_of(arm.body))
    &&& match arm.guard {
        Some(g) => {
            &&& distinct(g)
            &&& binding_ids(bindings(arm.pat, true)).disjoint(ids_of(g))
            &&& ids_of(g).disjoint(ids_of(arm.body))
        },
        None => true,
    }
}

pub open spec fn distinct_arms(arms: Seq<Arm>) -> bool
    decreases arms, 1nat,
{
    &&& forall|i: int| 0 <= i < arms.len() ==> distinct_arm(#[trigger] arms[i])
    &&& forall|i: int, j: int|
        0 <= i < j < arms.len() ==> ids_of_arm(#[trigger] arms[i]).disjoint(
            ids_of_arm(#[trigger] arms[j]),
        )
}

/// The tables hold what every table of the first pass holds: each tree
/// location has a live node of its own, and no capture node is the node of
/// a tree location.
pub open spec fn sound(ir: IrState) -> bool {
    &&& ir.wf()
    &&& forall|a: u64, b: u64|
        ir.live.contains_key(a) && ir.live.contains_key(b) && #[trigger] ir.live[a]
            == #[trigger] ir.live[b] ==> a == b
    &&& forall|id: u64, i: int, other: u64|
        ir.caps.contains_key(id) && 0 <= i < ir.caps[id].len() && ir.live.contains_key(other)
            ==> (#[trigger] ir.caps[id][i]).ln != #[trigger] ir.live[other]
}

/// The expression `id` has a live node in `lo..hi`, and no variable goes
/// by its id.
pub open spec fn node_in(ir: IrState, id: u64, lo: nat, hi: nat) -> bool {
    &&& ir.live.contains_key(id)
    &&& lo <= ir.live[id].0 < hi
    &&& !ir.vars.contains_key(id)
}

/// Each binding among `bs` that declares a variable has a live node in
/// `lo..hi` and a variable.
pub open spec fn defs_in(ir: IrState, bs: Seq<Binding>, lo: nat, hi: nat) -> bool {
    forall|i: int|
        0 <= i < bs.len() && (#[trigger] bs[i]).first ==> {
            &&& ir.live.contains_key(bs[i].id)
            &&& lo <= ir.live[bs[i].id].0 < hi
            &&& ir.vars.contains_key(bs[i].id)
        }
}

/// Every live node that the walk over the expression looks up is there and
/// lies in `lo..hi`, and the nodes in the body of a loop come after the
/// node of the loop.
pub open spec fn numbered(ir: IrState, e: Expr, lo: nat, hi: nat) -> bool
    decreases e, 0nat,
{
    match e.kind {
        ExprKind::Local(_) => node_in(ir, e.id, lo, hi),
        ExprKind::Compound(es, _) => numbered_exprs(ir, es@, lo, hi),
        ExprKind::Lazy(l, r) => node_in(ir, e.id, lo, hi) && numbered(ir, *l, lo, hi) && numbered(
            ir,
            *r,
            lo,
            hi,
        ),
        ExprKind::Assign(l, r) => numbered(ir, *l, lo, hi) && numbered(ir, *r, lo, hi),
        ExprKind::AssignOp(l, r) => numbered(ir, *l, lo, hi) && numbered(ir, *r, lo, hi),
        ExprKind::Let(pat, init) => defs_in(ir, bindings(pat, true), lo, hi) && numbered_opt(
            ir,
            init,
            lo,
            hi,
        ),
        ExprKind::Block(es, _) => numbered_exprs(ir, es@, lo, hi),
        ExprKind::Loop(body) => node_in(ir, e.id, lo, hi) && numbered(
            ir,
            *body,
            (ir.live[e.id].0 + 1) as nat,
            hi,
        ),
        ExprKind::Match(scrutinee, arms) => node_in(ir, e.id, lo, hi) && numbered(
            ir,
            *scrutinee,
            lo,
            hi,
        ) && numbered_arms(ir, arms@, lo, hi),
        ExprKind::Ret(value) => numbered_opt(ir, value, lo, hi),
        ExprKind::Break(_, value) => numbered_opt(ir, value, lo, hi),
        ExprKind::Continue(_) => true,
        ExprKind::Closure(body) => {
            &&& node_in(ir, e.id, lo, hi)
            &&& ir.caps.contains_key(e.id)
            &&& ir.caps[e.id].len() == body.upvars@.len()
            &&& forall|i: int|
                0 <= i < ir.caps[e.id].len() ==> lo <= (#[trigger] ir.caps[e.id][i]).ln.0 < hi
                    && ir.caps[e.id][i].var_hid == body.upvars@[i].var
        },
    }
}

pub open spec fn numbered_opt(ir: IrState, o: Option<Box<Expr>>, lo: nat, hi: nat) -> bool
    decreases o, 0nat,
{
    match o {
        Some(e) => numbered(ir, *e, lo, hi),
        None => true,
    }
}

pub open spec fn numbered_exprs(ir: IrState, es: Seq<Expr>, lo: nat, hi: nat) -> bool
    decreases es, 1nat,
{
    forall|i: int| 0 <= i < es.len() ==> numbered(ir, #[trigger] es[i], lo, hi)
}

pub open spec fn numbered_arm(ir: IrState, arm: Arm, lo: nat, hi: nat) -> bool
    decreases arm, 0nat,
{
    &&& defs_in(ir, bindings(arm.pat, true), lo, hi)
    &&& numbered(ir, arm.body, lo, hi)
    &&& match arm.guard {
        Some(g) => numbered(ir, g, lo, hi),
        None => true,
    }
}

pub open spec fn numbered_arms(ir: IrState, arms: Seq<Arm>, lo: nat, hi: nat) -> bool
    decreases arms, 1nat,
{
    forall|i: int| 0 <= i < arms.len() ==> numbered_arm(ir, #[trigger] arms[i], lo, hi)
}

/// The two tables say the same of `id`.
pub open spec fn same_at(a: IrState, b: IrState, id: u64) -> bool {
    &&& a.live.contains_key(id) == b.live.contains_key(id)
    &&& a.live[id] == b.live[id]
    &&& a.vars.contains_key(id) == b.vars.contains_key(id)
    &&& a.caps.contains_key(id) == b.caps.contains_key(id)
    &&& a.caps[id] == b.caps[id]
}

/// The two tables say the same of every id in `ids`.
pub open spec fn agree_on(a: IrState, b: IrState, ids: Set<u64>) -> bool {
    forall|id: u64| ids.contains(id) ==> #[trigger] same_at(a, b, id)
}

/// Numbering is kept by tables that agree on the ids of the expression, and
/// by a wider range.
pub proof fn lemma_numbered_carry(
    a: IrState,
    b: IrState,
    e: Expr,
    lo: nat,
    hi: nat,
    lo2: nat,
    hi2: nat,
)
    requires
        numbered(a, e, lo, hi),
        agree_on(a, b, ids_of(e)),
        lo2 <= lo,
        hi <= hi2,
    ensures
        numbered(b, e, lo2, hi2),
    decreases e, 0nat,
{
    match e.kind {
        ExprKind::Local(_) => {
            assert(same_at(a, b, e.id));
        },
        ExprKind::Compound(es, _) => {
            lemma_numbered_carry_exprs(a, b, es@, lo, hi, lo2, hi2);
        },
        ExprKind::Lazy(l, r) => {
            assert(same_at(a, b, e.id));
            lemma_numbered_carry(a, b, *l, lo, hi, lo2, hi2);
            lemma_numbered_carry(a, b, *r, lo, hi, lo2, hi2);
        },
        ExprKind::Assign(l, r) => {
            lemma_numbered_carry(a, b, *l, lo, hi, lo2, hi2);
            lemma_numbered_carry(a, b, *r, lo, hi, lo2, hi2);
        },
        ExprKind::AssignOp(l, r) => {
            lemma_numbered_carry(a, b, *l, lo, hi, lo2, hi2);
            lemma_numbered_carry(a, b, *r, lo, hi, lo2, hi2);
        },
        ExprKind::Let(pat, init) => {
            lemma_defs_carry(a, b, bindings(pat, true), lo, hi, lo2, hi2);
            lemma_numbered_carry_opt(a, b, init, lo, hi, lo2, hi2);
        },
        ExprKind::Block(es, _) => {
            lemma_numbered_carry_exprs(a, b, es@, lo, hi, lo2, hi2);
        },
        ExprKind::Loop(body) => {
            assert(same_at(a, b, e.id));
            let inner = (a.live[e.id].0 + 1) as nat;
            lemma_numbered_carry(a, b, *body, inner, hi, inner, hi2);
        },
        ExprKind::Match(scrutinee, arms) => {
            assert(same_at(a, b, e.id));
            lemma_numbered_carry(a, b, *scrutinee, lo, hi, lo2, hi2);
            lemma_numbered_carry_arms(a, b, arms@, lo, hi, lo2, hi2);
        },
        ExprKind::Ret(value) => {
            lemma_numbered_carry_opt(a, b, value, lo, hi, lo2, hi2);
        },
        ExprKind::Break(_, value) => {
            lemma_numbered_carry_opt(a, b, value, lo, hi, lo2, hi2);
        },
        ExprKind::Continue(_) => {},
        ExprKind::Closure(_) => {
            assert(same_at(a, b, e.id));
        },
    }
}

pub proof fn lemma_defs_carry(
    a: IrState,
    b: IrState,
    bs: Seq<Binding>,
    lo: nat,
    hi: nat,
    lo2: nat,
    hi2: nat,
)
    requires
        defs_in(a, bs, lo, hi),
        agree_on(a, b, binding_ids(bs)),
        lo2 <= lo,
        hi <= hi2,
    ensures
        defs_in(b, bs, lo2, hi2),
{
    assert forall|i: int| 0 <= i < bs.len() && (#[trigger] bs[i]).first implies {
        &&& b.live.contains_key(bs[i].id)
        &&& lo2 <= b.live[bs[i].id].0 < hi2
        &&& b.vars.contains_key(bs[i].id)
    } by {
        assert(binding_ids(bs).contains(bs[i].id));
        assert(same_at(a, b, bs[i].id));
    }
}

pub proof fn lemma_numbered_carry_opt(
    a: IrState,
    b: IrState,
    o: Option<Box<Expr>>,
    lo: nat,
    hi: nat,
    lo2: nat,
    hi2: nat,
)
    requires
        numbered_opt(a, o, lo, hi),
        agree_on(a, b, ids_of_opt(o)),
        lo2 <= lo,
        hi <= hi2,
    ensures
        numbered_opt(b, o, lo2, hi2),
    decreases o, 0nat,
{
    match o {
        Some(e) => lemma_numbered_carry(a, b, *e, lo, hi, lo2, hi2),
        None => {},
    }
}

pub proof fn lemma_numbered_carry_exprs(
    a: IrState,
    b: IrState,
    es: Seq<Expr>,
    lo: nat,
    hi: nat,
    lo2: nat,
    hi2: nat,
)
    requires
        numbered_exprs(a, es, lo, hi),
        agree_on(a, b, ids_of_exprs(es)),
        lo2 <= lo,
        hi <= hi2,
    ensures
        numbered_exprs(b, es, lo2, hi2),
    decreases es, 1nat,
{
    assert forall|i: int| 0 <= i < es.len() implies numbered(b, #[trigger] es[i], lo2, hi2) by {
        assert(numbered(a, es[i], lo, hi));
        assert forall|id: u64| ids_of(es[i]).contains(id) implies ids_of_exprs(es).contains(
            id,
        ) by {}
        lemma_numbered_carry(a, b, es[i], lo, hi, lo2, hi2);
    }
}

pub proof fn lemma_numbered_carry_arm(
    a: IrState,
    b: IrState,
    arm: Arm,
    lo: nat,
    hi: nat,
    lo2: nat,
    hi2: nat,
)
    requires
        numbered_arm(a, arm, lo, hi),
        agree_on(a, b, ids_of_arm(arm)),
        lo2 <= lo,
        hi <= hi2,
    ensures
        numbered_arm(b, arm, lo2, hi2),
    decreases arm, 0nat,
{
    lemma_defs_carry(a, b, bindings(arm.pat, true), lo, hi, lo2, hi2);
    lemma_numbered_carry(a, b, arm.body, lo, hi, lo2, hi2);
    match arm.guard {
        Some(g) => lemma_numbered_carry(a, b, g, lo, hi, lo2, hi2),
        None => {},
    }
}

pub proof fn lemma_numbered_carry_arms(
    a: IrState,
    b: IrState,
    arms: Seq<Arm>,
    lo: nat,
    hi: nat,
    lo2: nat,
    hi2: nat,
)
    requires
        numbered_arms(a, arms, lo, hi),
        agree_on(a, b, ids_of_arms(arms)),
        lo2 <= lo,
        hi <= hi2,
    ensures
        numbered_arms(b, arms, lo2, hi2),
    decreases arms, 1nat,
{
    assert forall|i: int| 0 <= i < arms.len() implies numbered_arm(
        b,
        #[trigger] arms[i],
        lo2,
        hi2,
    ) by {
        assert(numbered_arm(a, arms[i], lo, hi));
        assert forall|id: u64| ids_of_arm(arms[i]).contains(id) implies ids_of_arms(
            arms,
        ).contains(id) by {}
        lemma_numbered_carry_arm(a, b, arms[i], lo, hi, lo2, hi2);
    }
}

/// Neither table of ids knows any id in `ids`.
pub open spec fn fresh(st: IrState, ids: Set<u64>) -> bool {
    forall|id: u64|
        #![trigger st.live.contains_key(id)]
        #![trigger st.vars.contains_key(id)]
        ids.contains(id) ==> !st.live.contains_key(id) && !st.vars.contains_key(id)
}

/// The two tables say the same of every id outside `ids`.
pub open spec fn only_changed(a: IrState, b: IrState, ids: Set<u64>) -> bool {
    forall|id: u64|
        #![trigger b.live.contains_key(id)]
        #![trigger b.vars.contains_key(id)]
        #![trigger b.caps.contains_key(id)]
        #![trigger same_at(a, b, id)]
        !ids.contains(id) ==> same_at(a, b, id)
}

/// `b` came from `a` by numbering tree locations with ids in `ids`.
pub open spec fn grown(a: IrState, b: IrState, ids: Set<u64>) -> bool {
    &&& sound(b)
    &&& a.lnks.len() <= b.lnks.len()
    &&& only_changed(a, b, ids)
    &&& vars_kept(a, b)
}

/// Every id that has a variable in `a` has one in `b`.
pub open spec fn vars_kept(a: IrState, b: IrState) -> bool {
    forall|id: u64|
        #![trigger a.vars.contains_key(id)]
        #![trigger b.vars.contains_key(id)]
        a.vars.contains_key(id) ==> b.vars.contains_key(id)
}

pub proof fn lemma_grown_twice(a: IrState, b: IrState, c: IrState, s1: Set<u64>, s2: Set<u64>, s: Set<u64>)
    requires
        grown(a, b, s1),
        grown(b, c, s2),
        s1.subset_of(s),
        s2.subset_of(s),
    ensures
        grown(a, c, s),
{
    assert forall|id: u64| !s.contains(id) implies same_at(a, c, id) by {
        assert(same_at(a, b, id));
        assert(same_at(b, c, id));
    }
}

/// What is fresh stays fresh while other ids are numbered.
pub proof fn lemma_still_fresh(a: IrState, b: IrState, done: Set<u64>, next: Set<u64>)
    requires
        fresh(a, next),
        only_changed(a, b, done),
        done.disjoint(next),
    ensures
        fresh(b, next),
        agree_on(a, b, next),
{
    assert forall|id: u64| next.contains(id) implies !b.live.contains_key(id)
        && !b.vars.contains_key(id) && same_at(a, b, id) by {
        assert(!done.contains(id));
        assert(same_at(a, b, id));
    }
}

/// What was numbered stays as it is while other ids are numbered.
pub proof fn lemma_untouched(a: IrState, b: IrState, done: Set<u64>, keep: Set<u64>)
    requires
        only_changed(a, b, done),
        done.disjoint(keep),
    ensures
        agree_on(a, b, keep),
{
    assert forall|id: u64| keep.contains(id) implies same_at(a, b, id) by {
        assert(!done.contains(id));
    }
}

pub proof fn lemma_alloc_node(st: IrState, id: u64, lnk: crate::ir_maps::LiveNodeKind)
    requires
        sound(st),
        !st.live.contains_key(id),
        !st.vars.contains_key(id),
    ensures
        match st.add_live_node_for_node(id, lnk) {
            Ok(s1) => {
                &&& grown(st, s1, set![id])
                &&& s1.lnks.len() == st.lnks.len() + 1
                &&& node_in(s1, id, st.lnks.len(), s1.lnks.len())
                &&& s1.live[id].0 == st.lnks.len()
                &&& s1.vars == st.vars
            },
            Err(v) => v == Violation::TooLarge,
        },
{
}

/// The ids of the bindings `bs[i..]` that declare a variable.
pub open spec fn binding_ids_from(bs: Seq<Binding>, i: int) -> Set<u64> {
    Set::new(|id: u64| exists|k: int| i <= k < bs.len() && bs[k].first && #[trigger] bs[k].id == id)
}

pub proof fn lemma_alloc_bindings(st: IrState, bs: Seq<Binding>, i: nat)
    requires
        sound(st),
        distinct_bindings(bs),
        fresh(st, binding_ids_from(bs, i as int)),
    ensures
        match alloc_bindings(st, bs, i) {
            Ok(s2) => {
                &&& grown(st, s2, binding_ids_from(bs, i as int))
                &&& forall|k: int|
                    i <= k < bs.len() && (#[trigger] bs[k]).first ==> {
                        &&& s2.live.contains_key(bs[k].id)
                        &&& st.lnks.len() <= s2.live[bs[k].id].0 < s2.lnks.len()
                        &&& s2.vars.contains_key(bs[k].id)
                    }
            },
            Err(v) => v == Violation::TooLarge,
        },
    decreases bs.len() - i,
{
    let from_i = binding_ids_from(bs, i as int);
    let rest = binding_ids_from(bs, i as int + 1);
    if i >= bs.len() {
        assert(only_changed(st, st, from_i));
    } else if !bs[i as int].first {
        assert forall|id: u64| rest.contains(id) implies from_i.contains(id) by {
            let k = choose|k: int| i + 1 <= k < bs.len() && bs[k].first && #[trigger] bs[k].id == id;
            assert(i <= k < bs.len() && bs[k].first && bs[k].id == id);
        }
        assert(fresh(st, rest));
        lemma_alloc_bindings(st, bs, i + 1);
        match alloc_bindings(st, bs, i + 1) {
            Ok(s2) => {
                assert forall|id: u64| !from_i.contains(id) implies same_at(st, s2, id) by {
                    assert(!rest.contains(id));
                }
            },
            Err(_) => {},
        }
    } else {
        let b = bs[i as int];
        assert(from_i.contains(b.id));
        lemma_alloc_node(st, b.id, crate::ir_maps::LiveNodeKind::VarDefNode(b.span));
        match st.add_live_node_for_node(b.id, crate::ir_maps::LiveNodeKind::VarDefNode(b.span)) {
            Err(_) => {},
            Ok(s1) => match s1.add_variable(crate::ir_maps::local_of(b)) {
                Err(_) => {},
                Ok(s2) => {
                    assert(grown(s1, s2, set![b.id]));
                    assert forall|id: u64| rest.contains(id) implies from_i.contains(id) && id
                        != b.id by {
                        let k = choose|k: int|
                            i + 1 <= k < bs.len() && bs[k].first && #[trigger] bs[k].id == id;
                        assert(i <= k < bs.len() && bs[k].first && bs[k].id == id);
                    }
                    assert forall|id: u64| rest.contains(id) implies !s2.live.contains_key(id)
                        && !s2.vars.contains_key(id) by {
                        assert(from_i.contains(id) && id != b.id);
                    }
                    lemma_alloc_bindings(s2, bs, i + 1);
                    match alloc_bindings(s2, bs, i + 1) {
                        Err(_) => {},
                        Ok(s3) => {
                            assert forall|id: u64| !from_i.contains(id) implies same_at(
                                st,
                                s3,
                                id,
                            ) by {
                                assert(id != b.id);
                                assert(!rest.contains(id)) by {
                                    if rest.contains(id) {
                                        let k = choose|k: int|
                                            i + 1 <= k < bs.len() && bs[k].first
                                                && #[trigger] bs[k].id == id;
                                        assert(i <= k < bs.len() && bs[k].first && bs[k].id == id);
                                    }
                                }
                                assert(same_at(st, s1, id));
                                assert(same_at(s1, s2, id));
                                assert(same_at(s2, s3, id));
                            }
                            assert(!rest.contains(b.id)) by {
                                if rest.contains(b.id) {
                                    let k = choose|k: int|
                                        i + 1 <= k < bs.len() && bs[k].first
                                            && #[trigger] bs[k].id == b.id;
                                    assert(bs[i as int].id != bs[k].id);
                                }
                            }
                            assert(same_at(s2, s3, b.id));
                        },
                    }
                },
            },
        }
    }
}

pub proof fn lemma_alloc_captures(st: IrState, us: Seq<Upvar>, i: nat, cs: Seq<CaptureInfo>)
    requires
        st.wf(),
        forall|j: int| 0 <= j < cs.len() ==> (#[trigger] cs[j]).ln.0 < st.lnks.len(),
    ensures
        match alloc_captures(st, us, i, cs) {
            Ok((s2, cs2)) => {
                &&& s2.wf()
                &&& s2.live == st.live
                &&& s2.vars == st.vars
                &&& s2.caps == st.caps
                &&& st.lnks.len() <= s2.lnks.len()
                &&& cs.len() <= cs2.len()
                &&& i <= us.len() ==> cs2.len() == cs.len() + us.len() - i
                &&& forall|j: int| 0 <= j < cs.len() ==> cs2[j] == cs[j]
                &&& forall|j: int|
                    cs.len() <= j < cs2.len() ==> st.lnks.len() <= (#[trigger] cs2[j]).ln.0
                        < s2.lnks.len() && cs2[j].var_hid == us[j - cs.len() + i].var
            },
            Err(v) => v == Violation::TooLarge,
        },
    decreases us.len() - i,
{
    if i < us.len() {
        match st.add_live_node(crate::ir_maps::LiveNodeKind::UpvarNode(us[i as int].span)) {
            Err(_) => {},
            Ok((s1, ln)) => {
                let cs1 = cs.push(CaptureInfo { ln, var_hid: us[i as int].var });
                lemma_alloc_captures(s1, us, i + 1, cs1);
            },
        }
    }
}

/// The ids of the expressions `es[i..]`.
pub open spec fn ids_from(es: Seq<Expr>, i: int) -> Set<u64> {
    Set::new(|id: u64| exists|k: int| i <= k < es.len() && ids_of(#[trigger] es[k]).contains(id))
}

/// The ids of the arms `arms[i..]`.
pub open spec fn arm_ids_from(arms: Seq<Arm>, i: int) -> Set<u64> {
    Set::new(
        |id: u64| exists|k: int| i <= k < arms.len() && ids_of_arm(#[trigger] arms[k]).contains(id),
    )
}

/// The walk over an expression in which no id occurs twice, and none that
/// the tables know already, numbers it soundly and touches no other id.
pub proof fn lemma_alloc_expr(st: IrState, e: Expr)
    requires
        sound(st),
        distinct(e),
        fresh(st, ids_of(e)),
    ensures
        match alloc_expr(st, e) {
            Ok(s2) => grown(st, s2, ids_of(e)) && numbered(s2, e, st.lnks.len(), s2.lnks.len()),
            Err(v) => v == Violation::TooLarge,
        },
    decreases e, 1nat,
{
    let lo = st.lnks.len();
    let node = crate::ir_maps::LiveNodeKind::ExprNode(e.span);
    match e.kind {
        ExprKind::Local(_) => {
            assert(ids_of(e).contains(e.id));
            lemma_alloc_node(st, e.id, node);
        },
        ExprKind::Compound(es, _) => {
            assert(ids_from(es@, 0) =~= ids_of_exprs(es@));
            lemma_alloc_exprs(st, es@, 0);
            match alloc_exprs(st, es@, 0) {
                Ok(s2) => {
                    assert(numbered_exprs(s2, es@, lo, s2.lnks.len()));
                },
                Err(_) => {},
            }
        },
        ExprKind::Block(es, _) => {
            assert(ids_from(es@, 0) =~= ids_of_exprs(es@));
            lemma_alloc_exprs(st, es@, 0);
            match alloc_exprs(st, es@, 0) {
                Ok(s2) => {
                    assert(numbered_exprs(s2, es@, lo, s2.lnks.len()));
                },
                Err(_) => {},
            }
        },
        ExprKind::Lazy(l, r) => {
            assert(ids_of(e).contains(e.id));
            lemma_alloc_node(st, e.id, node);
            match st.add_live_node_for_node(e.id, node) {
                Err(_) => {},
                Ok(s1) => {
                    lemma_still_fresh(st, s1, set![e.id], ids_of(*l));
                    lemma_alloc_expr(s1, *l);
                    match alloc_expr(s1, *l) {
                        Err(_) => {},
                        Ok(s2) => {
                            lemma_grown_twice(st, s1, s2, set![e.id], ids_of(*l), ids_of(e));
                            lemma_still_fresh(
                                st,
                                s2,
                                ids_of(*l).insert(e.id),
                                ids_of(*r),
                            );
                            lemma_alloc_expr(s2, *r);
                            match alloc_expr(s2, *r) {
                                Err(_) => {},
                                Ok(s3) => {
                                    lemma_grown_twice(
                                        st,
                                        s2,
                                        s3,
                                        ids_of(*l).insert(e.id),
                                        ids_of(*r),
                                        ids_of(e),
                                    );
                                    lemma_untouched(s2, s3, ids_of(*r), ids_of(*l));
                                    lemma_numbered_carry(
                                        s2,
                                        s3,
                                        *l,
                                        s1.lnks.len(),
                                        s2.lnks.len(),
                                        lo,
                                        s3.lnks.len(),
                                    );
                                    lemma_numbered_carry(
                                        s3,
                                        s3,
                                        *r,
                                        s2.lnks.len(),
                                        s3.lnks.len(),
                                        lo,
                                        s3.lnks.len(),
                                    );
                                    assert(same_at(s1, s2, e.id));
                                    assert(same_at(s2, s3, e.id));
                                },
                            }
                        },
                    }
                },
            }
        },
        ExprKind::Assign(l, r) => {
            lemma_alloc_pair(st, e, *r, *l);
        },
        ExprKind::AssignOp(l, r) => {
            lemma_alloc_pair(st, e, *r, *l);
        },
        ExprKind::Let(pat, init) => {
            let bs = bindings(pat, true);
            assert(binding_ids_from(bs, 0) =~= binding_ids(bs));
            lemma_alloc_bindings(st, bs, 0);
            match alloc_bindings(st, bs, 0) {
                Err(_) => {},
                Ok(s1) => {
                    lemma_still_fresh(st, s1, binding_ids(bs), ids_of_opt(init));
                    lemma_alloc_opt(s1, init);
                    match alloc_opt(s1, init) {
                        Err(_) => {},
                        Ok(s2) => {
                            lemma_grown_twice(
                                st,
                                s1,
                                s2,
                                binding_ids(bs),
                                ids_of_opt(init),
                                ids_of(e),
                            );
                            lemma_untouched(s1, s2, ids_of_opt(init), binding_ids(bs));
                            assert(defs_in(s1, bs, lo, s1.lnks.len()));
                            lemma_defs_carry(s1, s2, bs, lo, s1.lnks.len(), lo, s2.lnks.len());
                            lemma_numbered_carry_opt(
                                s2,
                                s2,
                                init,
                                s1.lnks.len(),
                                s2.lnks.len(),
                                lo,
                                s2.lnks.len(),
                            );
                        },
                    }
                },
            }
        },
        ExprKind::Loop(body) => {
            assert(ids_of(e).contains(e.id));
            lemma_alloc_node(st, e.id, node);
            match st.add_live_node_for_node(e.id, node) {
                Err(_) => {},
                Ok(s1) => {
                    lemma_still_fresh(st, s1, set![e.id], ids_of(*body));
                    lemma_alloc_expr(s1, *body);
                    match alloc_expr(s1, *body) {
                        Err(_) => {},
                        Ok(s2) => {
                            lemma_grown_twice(st, s1, s2, set![e.id], ids_of(*body), ids_of(e));
                            assert(same_at(s1, s2, e.id));
                        },
                    }
                },
            }
        },
        ExprKind::Match(scrutinee, arms) => {
            assert(ids_of(e).contains(e.id));
            lemma_alloc_node(st, e.id, node);
            match st.add_live_node_for_node(e.id, node) {
                Err(_) => {},
                Ok(s1) => {
                    lemma_still_fresh(st, s1, set![e.id], ids_of(*scrutinee));
                    lemma_alloc_expr(s1, *scrutinee);
                    match alloc_expr(s1, *scrutinee) {
                        Err(_) => {},
                        Ok(s2) => {
                            let done = ids_of(*scrutinee).insert(e.id);
                            lemma_grown_twice(st, s1, s2, set![e.id], ids_of(*scrutinee), done);
                            assert(arm_ids_from(arms@, 0) =~= ids_of_arms(arms@));
                            lemma_still_fresh(st, s2, done, ids_of_arms(arms@));
                            lemma_alloc_arms(s2, arms@, 0);
                            match alloc_arms(s2, arms@, 0) {
                                Err(_) => {},
                                Ok(s3) => {
                                    lemma_grown_twice(
                                        st,
                                        s2,
                                        s3,
                                        done,
                                        ids_of_arms(arms@),
                                        ids_of(e),
                                    );
                                    lemma_untouched(
                                        s2,
                                        s3,
                                        ids_of_arms(arms@),
                                        ids_of(*scrutinee),
                                    );
                                    lemma_numbered_carry(
                                        s2,
                                        s3,
                                        *scrutinee,
                                        s1.lnks.len(),
                                        s2.lnks.len(),
                                        lo,
                                        s3.lnks.len(),
                                    );
                                    assert forall|k: int| 0 <= k < arms@.len() implies numbered_arm(
                                        s3,
                                        #[trigger] arms@[k],
                                        lo,
                                        s3.lnks.len(),
                                    ) by {
                                        assert(agree_on(s3, s3, ids_of_arm(arms@[k])));
                                        lemma_numbered_carry_arm(
                                            s3,
                                            s3,
                                            arms@[k],
                                            s2.lnks.len(),
                                            s3.lnks.len(),
                                            lo,
                                            s3.lnks.len(),
                                        );
                                    }
                                    assert(numbered_arms(s3, arms@, lo, s3.lnks.len()));
                                    assert(same_at(s1, s2, e.id));
                                    assert(same_at(s2, s3, e.id));
                                },
                            }
                        },
                    }
                },
            }
        },
        ExprKind::Ret(value) => {
            lemma_alloc_opt(st, value);
        },
        ExprKind::Break(_, value) => {
            lemma_alloc_opt(st, value);
        },
        ExprKind::Continue(_) => {
            assert(only_changed(st, st, ids_of(e)));
        },
        ExprKind::Closure(body) => {
            assert(ids_of(e).contains(e.id));
            lemma_alloc_node(st, e.id, node);
            match st.add_live_node_for_node(e.id, node) {
                Err(_) => {},
                Ok(s1) => {
                    lemma_alloc_captures(s1, body.upvars@, 0, Seq::empty());
                    match alloc_captures(s1, body.upvars@, 0, Seq::empty()) {
                        Err(_) => {},
                        Ok((s2, cs)) => {
                            let s3 = s2.set_captures(e.id, cs);
                            assert(s3.wf());
                            assert(sound(s3));
                            assert forall|id: u64| !ids_of(e).contains(id) implies same_at(
                                st,
                                s3,
                                id,
                            ) by {
                                assert(same_at(st, s1, id));
                            }
                        },
                    }
                },
            }
        },
    }
}

/// Two expressions walked one after the other, as the two sides of an
/// assignment are.
pub proof fn lemma_alloc_pair(st: IrState, e: Expr, first: Expr, second: Expr)
    requires
        sound(st),
        e.kind == ExprKind::Assign(Box::new(second), Box::new(first)) || e.kind
            == ExprKind::AssignOp(Box::new(second), Box::new(first)),
        distinct(e),
        fresh(st, ids_of(e)),
    ensures
        match alloc_expr(st, first) {
            Err(v) => v == Violation::TooLarge,
            Ok(s1) => match alloc_expr(s1, second) {
                Err(v) => v == Violation::TooLarge,
                Ok(s2) => {
                    &&& grown(st, s2, ids_of(e))
                    &&& numbered(s2, first, st.lnks.len(), s2.lnks.len())
                    &&& numbered(s2, second, st.lnks.len(), s2.lnks.len())
                },
            },
        },
    decreases e, 0nat,
{
    let all = ids_of(e);
    assert(all == ids_of(second).union(ids_of(first)));
    assert forall|id: u64| ids_of(first).contains(id) implies !st.live.contains_key(id)
        && !st.vars.contains_key(id) by {
        assert(all.contains(id));
    }
    lemma_alloc_expr(st, first);
    match alloc_expr(st, first) {
        Err(_) => {},
        Ok(s1) => {
            assert forall|id: u64| ids_of(second).contains(id) implies !st.live.contains_key(id)
                && !st.vars.contains_key(id) by {
                assert(all.contains(id));
            }
            lemma_still_fresh(st, s1, ids_of(first), ids_of(second));
            lemma_alloc_expr(s1, second);
            match alloc_expr(s1, second) {
                Err(_) => {},
                Ok(s2) => {
                    lemma_grown_twice(st, s1, s2, ids_of(first), ids_of(second), all);
                    lemma_untouched(s1, s2, ids_of(second), ids_of(first));
                    lemma_numbered_carry(
                        s1,
                        s2,
                        first,
                        st.lnks.len(),
                        s1.lnks.len(),
                        st.lnks.len(),
                        s2.lnks.len(),
                    );
                    lemma_numbered_carry(
                        s2,
                        s2,
                        second,
                        s1.lnks.len(),
                        s2.lnks.len(),
                        st.lnks.len(),
                        s2.lnks.len(),
                    );
                },
            }
        },
    }
}

pub proof fn lemma_alloc_opt(st: IrState, o: Option<Box<Expr>>)
    requires
        sound(st),
        distinct_opt(o),
        fresh(st, ids_of_opt(o)),
    ensures
        match alloc_opt(st, o) {
            Ok(s2) => grown(st, s2, ids_of_opt(o)) && numbered_opt(
                s2,
                o,
                st.lnks.len(),
                s2.lnks.len(),
            ),
            Err(v) => v == Violation::TooLarge,
        },
    decreases o, 0nat,
{
    match o {
        Some(e) => lemma_alloc_expr(st, *e),
        None => {
            assert(only_changed(st, st, ids_of_opt(o)));
        },
    }
}

pub proof fn lemma_alloc_exprs(st: IrState, es: Seq<Expr>, i: nat)
    requires
        sound(st),
        distinct_exprs(es),
        fresh(st, ids_from(es, i as int)),
    ensures
        match alloc_exprs(st, es, i) {
            Ok(s2) => {
                &&& grown(st, s2, ids_from(es, i as int))
                &&& forall|k: int|
                    i <= k < es.len() ==> numbered(s2, #[trigger] es[k], st.lnks.len(), s2.lnks.len())
            },
            Err(v) => v == Violation::TooLarge,
        },
    decreases es, es.len() - i,
{
    let from_i = ids_from(es, i as int);
    let rest = ids_from(es, i as int + 1);
    if i >= es.len() {
        assert(only_changed(st, st, from_i));
    } else {
        let e = es[i as int];
        assert(ids_of(e).subset_of(from_i));
        assert(rest.subset_of(from_i)) by {
            assert forall|id: u64| rest.contains(id) implies from_i.contains(id) by {
                let k = choose|k: int|
                    i + 1 <= k < es.len() && ids_of(#[trigger] es[k]).contains(id);
                assert(i <= k < es.len() && ids_of(es[k]).contains(id));
            }
        }
        assert(ids_of(e).disjoint(rest)) by {
            assert forall|id: u64| ids_of(e).contains(id) && rest.contains(id) implies false by {
                let k = choose|k: int|
                    i + 1 <= k < es.len() && ids_of(#[trigger] es[k]).contains(id);
                assert(ids_of(es[i as int]).disjoint(ids_of(es[k])));
            }
        }
        assert(fresh(st, ids_of(e)));
        lemma_alloc_expr(st, e);
        match alloc_expr(st, e) {
            Err(_) => {},
            Ok(s1) => {
                assert(fresh(st, rest));
                lemma_still_fresh(st, s1, ids_of(e), rest);
                lemma_alloc_exprs(s1, es, i + 1);
                match alloc_exprs(s1, es, i + 1) {
                    Err(_) => {},
                    Ok(s2) => {
                        lemma_grown_twice(st, s1, s2, ids_of(e), rest, from_i);
                        lemma_untouched(s1, s2, rest, ids_of(e));
                        lemma_numbered_carry(
                            s1,
                            s2,
                            e,
                            st.lnks.len(),
                            s1.lnks.len(),
                            st.lnks.len(),
                            s2.lnks.len(),
                        );
                        assert forall|k: int| i <= k < es.len() implies numbered(
                            s2,
                            #[trigger] es[k],
                            st.lnks.len(),
                            s2.lnks.len(),
                        ) by {
                            if k > i {
                                assert(agree_on(s2, s2, ids_of(es[k])));
                                lemma_numbered_carry(
                                    s2,
                                    s2,
                                    es[k],
                                    s1.lnks.len(),
                                    s2.lnks.len(),
                                    st.lnks.len(),
                                    s2.lnks.len(),
                                );
                            }
                        }
                    },
                }
            },
        }
    }
}

pub proof fn lemma_alloc_arm(st: IrState, arm: Arm)
    requires
        sound(st),
        distinct_arm(arm),
        fresh(st, ids_of_arm(arm)),
    ensures
        match alloc_arm(st, arm) {
            Ok(s2) => grown(st, s2, ids_of_arm(arm)) && numbered_arm(
                s2,
                arm,
                st.lnks.len(),
                s2.lnks.len(),
            ),
            Err(v) => v == Violation::TooLarge,
        },
    decreases arm, 0nat,
{
    let bs = bindings(arm.pat, true);
    let lo = st.lnks.len();
    assert(binding_ids_from(bs, 0) =~= binding_ids(bs));
    lemma_alloc_bindings(st, bs, 0);
    match alloc_bindings(st, bs, 0) {
        Err(_) => {},
        Ok(s1) => {
            assert(defs_in(s1, bs, lo, s1.lnks.len()));
            match arm.guard {
                Some(g) => {
                    lemma_still_fresh(st, s1, binding_ids(bs), ids_of(g));
                    lemma_alloc_expr(s1, g);
                    match alloc_expr(s1, g) {
                        Err(_) => {},
                        Ok(s2) => {
                            let done = binding_ids(bs).union(ids_of(g));
                            lemma_grown_twice(st, s1, s2, binding_ids(bs), ids_of(g), done);
                            lemma_still_fresh(st, s2, done, ids_of(arm.body));
                            lemma_alloc_expr(s2, arm.body);
                            match alloc_expr(s2, arm.body) {
                                Err(_) => {},
                                Ok(s3) => {
                                    lemma_grown_twice(
                                        st,
                                        s2,
                                        s3,
                                        done,
                                        ids_of(arm.body),
                                        ids_of_arm(arm),
                                    );
                                    lemma_untouched(s1, s2, ids_of(g), binding_ids(bs));
                                    lemma_defs_carry(s1, s2, bs, lo, s1.lnks.len(), lo, s2.lnks.len());
                                    lemma_untouched(s2, s3, ids_of(arm.body), binding_ids(bs));
                                    lemma_defs_carry(s2, s3, bs, lo, s2.lnks.len(), lo, s3.lnks.len());
                                    lemma_untouched(s2, s3, ids_of(arm.body), ids_of(g));
                                    lemma_numbered_carry(
                                        s2,
                                        s3,
                                        g,
                                        s1.lnks.len(),
                                        s2.lnks.len(),
                                        lo,
                                        s3.lnks.len(),
                                    );
                                    lemma_numbered_carry(
                                        s3,
                                        s3,
                                        arm.body,
                                        s2.lnks.len(),
                                        s3.lnks.len(),
                                        lo,
                                        s3.lnks.len(),
                                    );
                                },
                            }
                        },
                    }
                },
                None => {
                    lemma_still_fresh(st, s1, binding_ids(bs), ids_of(arm.body));
                    lemma_alloc_expr(s1, arm.body);
                    match alloc_expr(s1, arm.body) {
                        Err(_) => {},
                        Ok(s3) => {
                            lemma_grown_twice(
                                st,
                                s1,
                                s3,
                                binding_ids(bs),
                                ids_of(arm.body),
                                ids_of_arm(arm),
                            );
                            lemma_untouched(s1, s3, ids_of(arm.body), binding_ids(bs));
                            lemma_defs_carry(s1, s3, bs, lo, s1.lnks.len(), lo, s3.lnks.len());
                            lemma_numbered_carry(
                                s3,
                                s3,
                                arm.body,
                                s1.lnks.len(),
                                s3.lnks.len(),
                                lo,
                                s3.lnks.len(),
                            );
                        },
                    }
                },
            }
        },
    }
}

pub proof fn lemma_alloc_arms(st: IrState, arms: Seq<Arm>, i: nat)
    requires
        sound(st),
        distinct_arms(arms),
        fresh(st, arm_ids_from(arms, i as int)),
    ensures
        match alloc_arms(st, arms, i) {
            Ok(s2) => {
                &&& grown(st, s2, arm_ids_from(arms, i as int))
                &&& forall|k: int|
                    i <= k < arms.len() ==> numbered_arm(
                        s2,
                        #[trigger] arms[k],
                        st.lnks.len(),
                        s2.lnks.len(),
                    )
            },
            Err(v) => v == Violation::TooLarge,
        },
    decreases arms, arms.len() - i,
{
    let from_i = arm_ids_from(arms, i as int);
    let rest = arm_ids_from(arms, i as int + 1);
    if i >= arms.len() {
        assert(only_changed(st, st, from_i));
    } else {
        let arm = arms[i as int];
        assert(ids_of_arm(arm).subset_of(from_i));
        assert(rest.subset_of(from_i)) by {
            assert forall|id: u64| rest.contains(id) implies from_i.contains(id) by {
                let k = choose|k: int|
                    i + 1 <= k < arms.len() && ids_of_arm(#[trigger] arms[k]).contains(id);
                assert(i <= k < arms.len() && ids_of_arm(arms[k]).contains(id));
            }
        }
        assert(ids_of_arm(arm).disjoint(rest)) by {
            assert forall|id: u64| ids_of_arm(arm).contains(id) && rest.contains(id) implies false by {
                let k = choose|k: int|
                    i + 1 <= k < arms.len() && ids_of_arm(#[trigger] arms[k]).contains(id);
                assert(ids_of_arm(arms[i as int]).disjoint(ids_of_arm(arms[k])));
            }
        }
        assert(fresh(st, ids_of_arm(arm)));
        lemma_alloc_arm(st, arm);
        match alloc_arm(st, arm) {
            Err(_) => {},
            Ok(s1) => {
                assert(fresh(st, rest));
                lemma_still_fresh(st, s1, ids_of_arm(arm), rest);
                lemma_alloc_arms(s1, arms, i + 1);
                match alloc_arms(s1, arms, i + 1) {
                    Err(_) => {},
                    Ok(s2) => {
                        lemma_grown_twice(st, s1, s2, ids_of_arm(arm), rest, from_i);
                        lemma_untouched(s1, s2, rest, ids_of_arm(arm));
                        lemma_numbered_carry_arm(
                            s1,
                            s2,
                            arm,
                            st.lnks.len(),
                            s1.lnks.len(),
                            st.lnks.len(),
                            s2.lnks.len(),
                        );
                        assert forall|k: int| i <= k < arms.len() implies numbered_arm(
                            s2,
                            #[trigger] arms[k],
                            st.lnks.len(),
                            s2.lnks.len(),
                        ) by {
                            if k > i {
                                assert(agree_on(s2, s2, ids_of_arm(arms[k])));
                                lemma_numbered_carry_arm(
                                    s2,
                                    s2,
                                    arms[k],
                                    s1.lnks.len(),
                                    s2.lnks.len(),
                                    st.lnks.len(),
                                    s2.lnks.len(),
                                );
                            }
                        }
                    },
                }
            },
        }
    }
}

/// The ids of the variables that a body declares before its value: those
/// that it captures and those that its parameters bind.
pub open spec fn outer_ids(body: Body) -> Set<u64> {
    Set::new(
        |id: u64|
            (exists|i: int| 0 <= i < body.upvars@.len() && (#[trigger] body.upvars@[i]).var == id) || (
            exists|i: int|
                0 <= i < body.params@.len() && binding_ids(
                    bindings(#[trigger] body.params@[i], true),
                ).contains(id)),
    )
}

/// No id occurs twice among those under which the first pass records
/// something for the value of the body, and none of them is the id of a
/// captured variable or of a parameter.
pub open spec fn distinct_body(body: Body) -> bool {
    distinct(body.value) && ids_of(body.value).disjoint(outer_ids(body))
}

/// `b` came from `a` by giving variables to ids in `ids`, and nothing else.
pub open spec fn more_vars(a: IrState, b: IrState, ids: Set<u64>) -> bool {
    &&& sound(b)
    &&& b.live == a.live
    &&& b.caps == a.caps
    &&& b.lnks == a.lnks
    &&& forall|id: u64| #[trigger]
        b.vars.contains_key(id) ==> a.vars.contains_key(id) || ids.contains(id)
    &&& vars_kept(a, b)
}

pub proof fn lemma_alloc_upvars(st: IrState, body: Body, i: nat)
    requires
        sound(st),
    ensures
        match alloc_upvars(st, body.upvars@, i) {
            Ok(s2) => more_vars(st, s2, outer_ids(body)) && forall|k: int|
                i <= k < body.upvars@.len() ==> s2.vars.contains_key(
                    (#[trigger] body.upvars@[k]).var,
                ),
            Err(v) => v == Violation::TooLarge,
        },
    decreases body.upvars@.len() - i,
{
    let us = body.upvars@;
    if i < us.len() {
        match st.add_variable(crate::ir_maps::VarKind::Upvar(us[i as int].var, us[i as int].name)) {
            Err(_) => {},
            Ok(s1) => {
                assert(outer_ids(body).contains(us[i as int].var));
                assert(s1.vars.contains_key(us[i as int].var));
                lemma_alloc_upvars(s1, body, i + 1);
            },
        }
    }
}

pub proof fn lemma_alloc_params(st: IrState, bs: Seq<Binding>, i: nat)
    requires
        sound(st),
    ensures
        match alloc_params(st, bs, i) {
            Ok(s2) => more_vars(st, s2, binding_ids(bs)) && forall|k: int|
                i <= k < bs.len() && (#[trigger] bs[k]).first ==> s2.vars.contains_key(bs[k].id),
            Err(v) => v == Violation::TooLarge,
        },
    decreases bs.len() - i,
{
    if i < bs.len() {
        if !bs[i as int].first {
            lemma_alloc_params(st, bs, i + 1);
        } else {
            match st.add_variable(crate::ir_maps::param_of(bs[i as int])) {
                Err(_) => {},
                Ok(s1) => {
                    assert(crate::ir_maps::param_of(bs[i as int]).id() == bs[i as int].id);
                    assert(binding_ids(bs).contains(bs[i as int].id));
                    assert(s1.vars.contains_key(bs[i as int].id));
                    lemma_alloc_params(s1, bs, i + 1);
                },
            }
        }
    }
}

pub proof fn lemma_alloc_param_pats(st: IrState, body: Body, i: nat)
    requires
        sound(st),
    ensures
        match alloc_param_pats(st, body.params@, i) {
            Ok(s2) => more_vars(st, s2, outer_ids(body)) && forall|k: int, j: int|
                i <= k < body.params@.len() && 0 <= j < bindings(body.params@[k], true).len() && (
                #[trigger] bindings(body.params@[k], true)[j]).first ==> s2.vars.contains_key(
                    bindings(body.params@[k], true)[j].id,
                ),
            Err(v) => v == Violation::TooLarge,
        },
    decreases body.params@.len() - i,
{
    let ps = body.params@;
    if i < ps.len() {
        let bs = bindings(ps[i as int], true);
        lemma_alloc_params(st, bs, 0);
        match alloc_params(st, bs, 0) {
            Err(_) => {},
            Ok(s1) => {
                assert forall|id: u64| binding_ids(bs).contains(id) implies outer_ids(
                    body,
                ).contains(id) by {
                    assert(binding_ids(bindings(body.params@[i as int], true)).contains(id));
                }
                lemma_alloc_param_pats(s1, body, i + 1);
            },
        }
    }
}

/// The first pass numbers soundly every body in which no id occurs twice.
pub proof fn lemma_alloc_body(body: Body)
    requires
        distinct_body(body),
    ensures
        match alloc_body(body) {
            Ok(ir) => {
                &&& sound(ir)
                &&& numbered(ir, body.value, 0, ir.lnks.len())
                &&& forall|k: int|
                    0 <= k < body.upvars@.len() ==> ir.vars.contains_key(
                        (#[trigger] body.upvars@[k]).var,
                    )
                &&& forall|k: int, j: int|
                    0 <= k < body.params@.len() && 0 <= j < bindings(body.params@[k], true).len()
                        && (#[trigger] bindings(body.params@[k], true)[j]).first
                        ==> ir.vars.contains_key(bindings(body.params@[k], true)[j].id)
            },
            Err(v) => v == Violation::TooLarge,
        },
{
    let s0 = IrState::empty();
    assert(sound(s0));
    lemma_alloc_upvars(s0, body, 0);
    match alloc_upvars(s0, body.upvars@, 0) {
        Err(_) => {},
        Ok(s1) => {
            lemma_alloc_param_pats(s1, body, 0);
            match alloc_param_pats(s1, body.params@, 0) {
                Err(_) => {},
                Ok(s2) => {
                    assert forall|id: u64| ids_of(body.value).contains(id) implies !s2.live.contains_key(
                        id,
                    ) && !s2.vars.contains_key(id) by {
                        assert(!outer_ids(body).contains(id));
                        if s2.vars.contains_key(id) {
                            assert(s1.vars.contains_key(id) || outer_ids(body).contains(id));
                        }
                    }
                    lemma_alloc_expr(s2, body.value);
                },
            }
        },
    }
}

} // verus!
