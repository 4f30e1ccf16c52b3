use liveness::flow::{Access, Specials};
use liveness::hir::{Arm, Body, BodyKind, ClosureKind, Expr, ExprKind, Pat, PatKind, Span, Upvar};
use liveness::ir_maps::{CaptureInfo, IrMaps, LiveNodeKind, VarKind, Violation};
use liveness::propagate::Liveness;
use liveness::rwu::{invalid_node, LiveNode, Variable, RWU};

fn sp(id: u64) -> Span {
    Span { lo: id as u32, hi: id as u32 + 1 }
}

fn expr(id: u64, kind: ExprKind) -> Expr {
    Expr { id, span: sp(id), kind }
}

fn lit(id: u64) -> Expr {
    expr(id, ExprKind::Compound(vec![], false))
}

fn local(id: u64, var: u64) -> Expr {
    expr(id, ExprKind::Local(var))
}

fn block(id: u64, stmts: Vec<Expr>) -> Expr {
    expr(id, ExprKind::Block(stmts, false))
}

fn bind(id: u64, name: &str) -> Pat {
    Pat { id, span: sp(id), shorthand_field: false, kind: PatKind::Binding(name.to_string(), None) }
}

fn let_(id: u64, pat: Pat, init: Option<Expr>) -> Expr {
    expr(id, ExprKind::Let(pat, init.map(Box::new)))
}

fn function(params: Vec<Pat>, value: Expr) -> Body {
    Body { kind: BodyKind::Fn, upvars: vec![], params, value }
}

fn computed(body: &Body) -> (Liveness, LiveNode) {
    let ir = IrMaps::visit_body(body).unwrap();
    let mut lsets = Liveness::new(ir).unwrap();
    let entry = lsets.compute(body).unwrap();
    (lsets, entry)
}

fn dead(used: bool) -> RWU {
    RWU { reader: invalid_node(), writer: invalid_node(), used }
}

fn var_kind(vk: &VarKind) -> (&'static str, u64, String, bool) {
    match vk {
        VarKind::Param(id, name) => ("param", *id, name.clone(), false),
        VarKind::Local(info) => ("local", info.id, info.name.clone(), info.is_shorthand),
        VarKind::Upvar(id, name) => ("upvar", *id, name.clone(), false),
    }
}

#[test]
fn nodes_and_variables_are_numbered_in_walk_order() {
    let inner = Body {
        kind: BodyKind::Closure(ClosureKind::FnOnce),
        upvars: vec![
            Upvar { var: 5, name: "x".to_string(), span: sp(40), by_ref: false },
            Upvar { var: 1, name: "p".to_string(), span: sp(41), by_ref: true },
        ],
        params: vec![],
        value: lit(50),
    };
    let body = function(
        vec![
            bind(1, "p"),
            Pat {
                id: 30,
                span: sp(30),
                shorthand_field: false,
                kind: PatKind::Tuple(vec![Pat {
                    id: 2,
                    span: sp(2),
                    shorthand_field: true,
                    kind: PatKind::Binding("q".to_string(), None),
                }]),
            },
        ],
        block(
            3,
            vec![
                let_(4, bind(5, "x"), Some(local(6, 1))),
                expr(
                    7,
                    ExprKind::Match(
                        Box::new(local(8, 5)),
                        vec![Arm {
                            pat: Pat {
                                id: 31,
                                span: sp(31),
                                shorthand_field: false,
                                kind: PatKind::Or(vec![bind(9, "y"), bind(10, "y")]),
                            },
                            guard: None,
                            body: lit(11),
                        }],
                    ),
                ),
                expr(12, ExprKind::Closure(Box::new(inner))),
                expr(13, ExprKind::Lazy(Box::new(local(14, 1)), Box::new(local(15, 5)))),
                expr(16, ExprKind::Loop(Box::new(block(17, vec![expr(18, ExprKind::Break(Some(16), None))])))),
            ],
        ),
    );
    let ir = IrMaps::visit_body(&body).unwrap();
    assert_eq!(ir.num_live_nodes(), 12);
    assert_eq!(ir.num_vars(), 4);
    assert_eq!(
        ir.lnks,
        vec![
            LiveNodeKind::VarDefNode(sp(5)),
            LiveNodeKind::ExprNode(sp(6)),
            LiveNodeKind::ExprNode(sp(7)),
            LiveNodeKind::ExprNode(sp(8)),
            LiveNodeKind::VarDefNode(sp(9)),
            LiveNodeKind::ExprNode(sp(12)),
            LiveNodeKind::UpvarNode(sp(40)),
            LiveNodeKind::UpvarNode(sp(41)),
            LiveNodeKind::ExprNode(sp(13)),
            LiveNodeKind::ExprNode(sp(14)),
            LiveNodeKind::ExprNode(sp(15)),
            LiveNodeKind::ExprNode(sp(16)),
        ]
    );
    let kinds: Vec<_> = ir.var_kinds.iter().map(var_kind).collect();
    assert_eq!(
        kinds,
        vec![
            ("param", 1, "p".to_string(), false),
            ("local", 2, "q".to_string(), true),
            ("local", 5, "x".to_string(), false),
            ("local", 9, "y".to_string(), false),
        ]
    );
    assert_eq!(ir.live_node(5), Ok(LiveNode(0)));
    assert_eq!(ir.live_node(6), Ok(LiveNode(1)));
    assert_eq!(ir.live_node(16), Ok(LiveNode(11)));
    assert_eq!(ir.variable(1), Ok(Variable(0)));
    assert_eq!(ir.variable(9), Ok(Variable(3)));
    // The second alternative repeats a name; it declares nothing.
    assert_eq!(ir.live_node(10), Err(Violation::NoLiveNode));
    assert_eq!(ir.variable(10), Err(Violation::NoVariable));
    // Blocks, literals and jumps need no node.
    assert_eq!(ir.live_node(3), Err(Violation::NoLiveNode));
    assert_eq!(ir.live_node(18), Err(Violation::NoLiveNode));
    assert_eq!(
        ir.captures(12),
        Ok(vec![
            CaptureInfo { ln: LiveNode(6), var_hid: 5 },
            CaptureInfo { ln: LiveNode(7), var_hid: 1 }
        ])
    );
    assert_eq!(ir.captures(13), Err(Violation::NoCaptures));
    assert_eq!(ir.variable_name(Variable(2)), "x".to_string());
    assert!(ir.variable_is_shorthand(Variable(1)));
    assert!(!ir.variable_is_shorthand(Variable(0)));
    assert_eq!(ir.lnk(LiveNode(4)), LiveNodeKind::VarDefNode(sp(9)));

    let lsets = Liveness::new(ir).unwrap();
    assert_eq!(lsets.s, Specials { closure_ln: LiveNode(12), exit_ln: LiveNode(13) });
    assert_eq!(lsets.ir.lnks[12], LiveNodeKind::ClosureNode);
    assert_eq!(lsets.ir.lnks[13], LiveNodeKind::ExitNode);
    assert_eq!(lsets.facts(LiveNode(13)), vec![dead(false); 4]);
    assert_eq!(lsets.successor(LiveNode(0)), Err(Violation::NoSuccessor));
}

#[test]
fn captured_variables_of_a_closure_come_first() {
    let body = Body {
        kind: BodyKind::Closure(ClosureKind::Fn),
        upvars: vec![Upvar { var: 7, name: "v".to_string(), span: sp(40), by_ref: true }],
        params: vec![bind(1, "p")],
        value: local(2, 7),
    };
    let ir = IrMaps::visit_body(&body).unwrap();
    let kinds: Vec<_> = ir.var_kinds.iter().map(var_kind).collect();
    assert_eq!(kinds, vec![("upvar", 7, "v".to_string(), false), ("param", 1, "p".to_string(), false)]);
    assert_eq!(ir.lnks, vec![LiveNodeKind::ExprNode(sp(2))]);
}

#[test]
fn a_read_is_recorded_at_its_node() {
    // fn f(p: i32, q: i32) -> i32 { p }
    let body = function(vec![bind(1, "p"), bind(3, "q")], local(2, 1));
    let (lsets, entry) = computed(&body);
    assert_eq!(entry, LiveNode(0));
    assert_eq!(lsets.s.exit_ln, LiveNode(2));
    assert_eq!(
        lsets.facts(entry),
        vec![RWU { reader: LiveNode(0), writer: invalid_node(), used: true }, dead(false)]
    );
    assert_eq!(lsets.facts(lsets.s.exit_ln), vec![dead(false), dead(false)]);
    assert_eq!(lsets.successor(entry), Ok(LiveNode(2)));
    assert_eq!(lsets.live_on_entry(entry, Variable(0)), Some(LiveNodeKind::ExprNode(sp(2))));
    assert_eq!(lsets.live_on_entry(entry, Variable(1)), None);
    assert!(lsets.used_on_entry(entry, Variable(0)));
    assert!(!lsets.used_on_entry(entry, Variable(1)));
    assert_eq!(lsets.assigned_on_entry(entry, Variable(0)), None);
    assert_eq!(lsets.live_on_exit(entry, Variable(0)), Ok(None));
    assert_eq!(lsets.assigned_on_exit(entry, Variable(0)), Ok(None));
    assert_eq!(lsets.live_on_exit(lsets.s.exit_ln, Variable(0)), Err(Violation::NoSuccessor));
    assert_eq!(lsets.should_warn(Variable(0)), Some("p".to_string()));
}

#[test]
fn each_access_sets_what_it_should() {
    let body = function(vec![bind(1, "p")], block(2, vec![local(3, 1), local(4, 1)]));
    let ir = IrMaps::visit_body(&body).unwrap();
    let mut lsets = Liveness::new(ir).unwrap();
    let (a, b, exit) = (LiveNode(0), LiveNode(1), lsets.s.exit_ln);
    let var = Variable(0);
    lsets.init_from_succ(b, exit);
    lsets.acc(b, var, Access::ReadUse);
    assert_eq!(lsets.facts(b), vec![RWU { reader: b, writer: invalid_node(), used: true }]);
    // A write forgets the reader and keeps the use.
    lsets.init_from_succ(a, b);
    assert_eq!(lsets.facts(a), lsets.facts(b));
    assert_eq!(lsets.successor(a), Ok(b));
    lsets.acc(a, var, Access::Write);
    assert_eq!(lsets.facts(a), vec![RWU { reader: invalid_node(), writer: a, used: true }]);
    // A write that reads is read here, and is no use.
    lsets.init_from_succ(a, exit);
    lsets.acc(a, var, Access::ReadWrite);
    assert_eq!(lsets.facts(a), vec![RWU { reader: a, writer: a, used: false }]);
    // A definition clears reader and writer and keeps the use.
    lsets.define(a, var);
    assert_eq!(lsets.facts(a), vec![dead(false)]);
    lsets.define(b, var);
    assert_eq!(lsets.facts(b), vec![dead(true)]);
    // An empty start only sets the successor.
    lsets.init_empty(b, a);
    assert_eq!(lsets.facts(b), vec![dead(true)]);
    assert_eq!(lsets.successor(b), Ok(a));
}

#[test]
fn merge_is_a_union_field_by_field() {
    let body = function(
        vec![bind(1, "p"), bind(2, "q"), bind(3, "r")],
        block(4, vec![local(5, 1), local(6, 1), local(7, 1)]),
    );
    let ir = IrMaps::visit_body(&body).unwrap();
    let mut lsets = Liveness::new(ir).unwrap();
    let (a, b, c, exit) = (LiveNode(0), LiveNode(1), LiveNode(2), lsets.s.exit_ln);
    let (p, q, r) = (Variable(0), Variable(1), Variable(2));
    lsets.init_from_succ(a, exit);
    lsets.acc(a, p, Access::ReadUse);
    lsets.acc(a, q, Access::Write);
    lsets.init_from_succ(b, exit);
    lsets.acc(b, p, Access::ReadWrite);
    lsets.acc(b, r, Access::ReadUse);
    lsets.init_empty(c, exit);
    assert!(!lsets.merge_from_succ(c, c));
    assert!(!lsets.merge_from_succ(c, exit));
    assert!(lsets.merge_from_succ(c, a));
    assert_eq!(lsets.facts(c), lsets.facts(a));
    assert!(!lsets.merge_from_succ(c, a));
    assert!(lsets.merge_from_succ(c, b));
    assert_eq!(
        lsets.facts(c),
        vec![
            RWU { reader: a, writer: b, used: true },
            RWU { reader: invalid_node(), writer: a, used: false },
            RWU { reader: b, writer: invalid_node(), used: true },
        ]
    );
    assert!(!lsets.merge_from_succ(c, b));
    // The other order names other nodes and makes the same things live.
    let mut other = Liveness::new(IrMaps::visit_body(&body).unwrap()).unwrap();
    other.init_from_succ(a, exit);
    other.acc(a, p, Access::ReadUse);
    other.acc(a, q, Access::Write);
    other.init_from_succ(b, exit);
    other.acc(b, p, Access::ReadWrite);
    other.acc(b, r, Access::ReadUse);
    other.init_empty(c, exit);
    assert!(other.merge_from_succ(c, b));
    assert!(other.merge_from_succ(c, a));
    assert_eq!(other.facts(c)[0], RWU { reader: b, writer: b, used: true });
    for var in [p, q, r] {
        assert_eq!(other.live_on_entry(c, var).is_some(), lsets.live_on_entry(c, var).is_some());
        assert_eq!(other.assigned_on_entry(c, var).is_some(), lsets.assigned_on_entry(c, var).is_some());
        assert_eq!(other.used_on_entry(c, var), lsets.used_on_entry(c, var));
    }
}

fn two_arms(first_reads: bool) -> Body {
    // fn f(s: S, x: i32) { match s { _ => x, _ => 0 } }   or the arms swapped
    let reading = Arm {
        pat: Pat { id: 10, span: sp(10), shorthand_field: false, kind: PatKind::Wild },
        guard: None,
        body: local(11, 2),
    };
    let silent = Arm {
        pat: Pat { id: 12, span: sp(12), shorthand_field: false, kind: PatKind::Wild },
        guard: None,
        body: lit(13),
    };
    let arms = if first_reads { vec![reading, silent] } else { vec![silent, reading] };
    function(
        vec![bind(1, "s"), bind(2, "x")],
        expr(3, ExprKind::Match(Box::new(local(4, 1)), arms)),
    )
}

#[test]
fn live_in_one_arm_is_live_at_the_match() {
    for first_reads in [true, false] {
        let body = two_arms(first_reads);
        let (lsets, entry) = computed(&body);
        let match_ln = lsets.live_node(3).unwrap();
        let x = lsets.variable(2).unwrap();
        assert_eq!(lsets.live_on_entry(match_ln, x), Some(LiveNodeKind::ExprNode(sp(11))));
        assert!(lsets.used_on_entry(match_ln, x));
        assert_eq!(lsets.live_on_entry(entry, x), Some(LiveNodeKind::ExprNode(sp(11))));
        // After the match nothing reads `x`.
        assert_eq!(lsets.live_on_exit(match_ln, x), Ok(None));
    }
}

#[test]
fn a_definition_kills_what_is_live_below_it() {
    // fn f() { loop { use_val(x); let x = 1; use_val(x); } }  one binding, named above itself
    let body = function(
        vec![],
        expr(
            1,
            ExprKind::Loop(Box::new(block(
                2,
                vec![
                    expr(3, ExprKind::Compound(vec![local(4, 6)], false)),
                    let_(5, bind(6, "x"), Some(lit(7))),
                    expr(8, ExprKind::Compound(vec![local(9, 6)], false)),
                ],
            ))),
        ),
    );
    let (lsets, entry) = computed(&body);
    let def = lsets.live_node(6).unwrap();
    let x = lsets.variable(6).unwrap();
    assert_eq!(lsets.ir.lnk(def), LiveNodeKind::VarDefNode(sp(6)));
    assert_eq!(lsets.live_on_entry(def, x), None);
    assert_eq!(lsets.assigned_on_entry(def, x), None);
    assert!(lsets.used_on_entry(def, x));
    // It is live after the definition and on entry to the loop.
    assert_eq!(lsets.live_on_exit(def, x), Ok(Some(LiveNodeKind::ExprNode(sp(9)))));
    assert_eq!(lsets.live_on_entry(entry, x), Some(LiveNodeKind::ExprNode(sp(4))));
}

#[test]
fn a_loop_over_many_variables_settles() {
    // fn f(v0, .., v39) { loop { v0 = v1; v1 = v2; ..; v39 = v0; } }
    let n = 40u64;
    let params: Vec<Pat> = (0..n).map(|i| bind(100 + i, &format!("v{}", i))).collect();
    let mut stmts = Vec::new();
    for i in 0..n {
        let l = local(1000 + 3 * i, 100 + i);
        let r = local(1001 + 3 * i, 100 + (i + 1) % n);
        stmts.push(expr(1002 + 3 * i, ExprKind::Assign(Box::new(l), Box::new(r))));
    }
    let body = function(params, expr(1, ExprKind::Loop(Box::new(block(2, stmts)))));
    let (lsets, entry) = computed(&body);
    assert_eq!(entry, lsets.live_node(1).unwrap());
    let row = lsets.facts(entry);
    assert_eq!(row.len(), 40);
    // v0 is written before it is read; every other variable is read first.
    assert!(!row[0].reader.is_valid());
    assert!(row[0].writer.is_valid());
    for fact in &row[1..] {
        assert!(fact.reader.is_valid() && fact.writer.is_valid() && fact.used);
    }
    // Nothing comes after a loop without `break`.
    assert_eq!(lsets.facts(lsets.s.exit_ln), vec![dead(false); 40]);
}

#[test]
fn a_lookup_that_misses_stops_the_walk() {
    let make = || function(vec![bind(1, "p")], expr(2, ExprKind::Closure(Box::new(function(vec![], lit(3))))));
    // Tables that never saw the body know none of its nodes.
    let mut lsets = Liveness::new(IrMaps::new()).unwrap();
    let exit = lsets.s.exit_ln;
    assert_eq!(lsets.s, Specials { closure_ln: LiveNode(0), exit_ln: LiveNode(1) });
    assert_eq!(lsets.propagate_through_expr(&local(2, 1), exit), Err(Violation::NoLiveNode));
    assert_eq!(lsets.propagate_through_expr(&make().value, exit), Err(Violation::NoCaptures));
    assert_eq!(lsets.propagate_through_expr(&lit(9), exit), Ok(exit));
    // A node without a capture list.
    let mut ir = IrMaps::new();
    assert_eq!(ir.add_live_node_for_node(2, LiveNodeKind::ExprNode(sp(2))), Ok(()));
    let mut lsets = Liveness::new(ir).unwrap();
    let exit = lsets.s.exit_ln;
    assert_eq!(lsets.propagate_through_expr(&make().value, exit), Err(Violation::NoCaptures));
    // With the tables of the body the walk goes through.
    let mut lsets = Liveness::new(IrMaps::visit_body(&make()).unwrap()).unwrap();
    let exit = lsets.s.exit_ln;
    assert_eq!(lsets.propagate_through_expr(&make().value, exit), Ok(exit));
}
