use liveness::diagnostics::{analyze, Diagnostic, DiagnosticKind, Fix, Part};
use liveness::hir::{Arm, Body, BodyKind, ClosureKind, Expr, ExprKind, Pat, PatKind, Span, Upvar};
use liveness::ir_maps::Violation;

fn sp(id: u64) -> Span {
    Span { lo: id as u32, hi: id as u32 + 1 }
}

fn expr(id: u64, kind: ExprKind) -> Expr {
    Expr { id, span: sp(id), kind }
}

fn lit(id: u64) -> Expr {
    expr(id, ExprKind::Compound(vec![], false))
}

fn call(id: u64, operands: Vec<Expr>) -> Expr {
    expr(id, ExprKind::Compound(operands, false))
}

fn local(id: u64, var: u64) -> Expr {
    expr(id, ExprKind::Local(var))
}

fn assign(id: u64, l: Expr, r: Expr) -> Expr {
    expr(id, ExprKind::Assign(Box::new(l), Box::new(r)))
}

fn block(id: u64, stmts: Vec<Expr>) -> Expr {
    expr(id, ExprKind::Block(stmts, false))
}

fn bind(id: u64, name: &str) -> Pat {
    Pat { id, span: sp(id), shorthand_field: false, kind: PatKind::Binding(name.to_string(), None) }
}

fn let_(id: u64, pat: Pat, init: Option<Expr>) -> Expr {
    expr(id, ExprKind::Let(pat, init.map(Box::new)))
}

fn assign_op(id: u64, l: Expr, r: Expr) -> Expr {
    expr(id, ExprKind::AssignOp(Box::new(l), Box::new(r)))
}

fn loop_(id: u64, body: Expr) -> Expr {
    expr(id, ExprKind::Loop(Box::new(body)))
}

fn pat(id: u64, shorthand_field: bool, kind: PatKind) -> Pat {
    Pat { id, span: sp(id), shorthand_field, kind }
}

fn arm(p: Pat, guard: Option<Expr>, body: Expr) -> Arm {
    Arm { pat: p, guard, body }
}

fn closure(kind: ClosureKind, upvars: Vec<Upvar>, params: Vec<Pat>, value: Expr) -> Body {
    Body { kind: BodyKind::Closure(kind), upvars, params, value }
}

fn upvar(var: u64, name: &str, span: u64, by_ref: bool) -> Upvar {
    Upvar { var, name: name.to_string(), span: sp(span), by_ref }
}

fn plain(kind: DiagnosticKind, name: &str, spans: &[u64]) -> (DiagnosticKind, String, Vec<Part>) {
    (kind, name.to_string(), spans.iter().map(|s| Part { span: sp(*s), fix: Fix::Nothing }).collect())
}

fn function(params: Vec<Pat>, value: Expr) -> Body {
    Body { kind: BodyKind::Fn, upvars: vec![], params, value }
}

fn summary(ds: &[Diagnostic]) -> Vec<(DiagnosticKind, String, Vec<Part>)> {
    ds.iter().map(|d| (d.kind, d.name.clone(), d.parts.clone())).collect()
}

#[test]
fn unused_let_is_reported_once() {
    // fn f() { let x = 1; }
    let body = function(vec![], block(1, vec![let_(2, bind(3, "x"), Some(lit(4)))]));
    let ds = analyze(&body).unwrap();
    assert_eq!(
        summary(&ds),
        vec![(
            DiagnosticKind::UnusedVariable,
            "x".to_string(),
            vec![Part { span: sp(3), fix: Fix::Underscore }]
        )]
    );
}

#[test]
fn overwritten_then_read_is_silent() {
    // fn f() { let mut x = 1; x = 2; x; }
    let body = function(
        vec![],
        block(
            1,
            vec![
                let_(2, bind(3, "x"), Some(lit(4))),
                assign(5, local(6, 3), lit(7)),
                local(8, 3),
            ],
        ),
    );
    let ds = analyze(&body).unwrap();
    assert_eq!(summary(&ds), vec![]);
}

#[test]
fn overwritten_and_never_read() {
    // fn f() { let mut x = 1; x = 2; }
    let body = function(
        vec![],
        block(1, vec![let_(2, bind(3, "x"), Some(lit(4))), assign(5, local(6, 3), lit(7))]),
    );
    let ds = analyze(&body).unwrap();
    assert_eq!(
        summary(&ds),
        vec![
            (
                DiagnosticKind::UnusedAssigned,
                "x".to_string(),
                vec![Part { span: sp(3), fix: Fix::Nothing }]
            ),
            (
                DiagnosticKind::DeadAssignment,
                "x".to_string(),
                vec![Part { span: sp(6), fix: Fix::Nothing }]
            ),
        ]
    );
    assert!(ds.iter().all(|d| d.kind != DiagnosticKind::UnusedVariable));
}

#[test]
fn unused_parameter() {
    // fn f(x: i32) {}
    let body = function(vec![bind(1, "x")], block(2, vec![]));
    let ds = analyze(&body).unwrap();
    assert_eq!(
        summary(&ds),
        vec![(
            DiagnosticKind::UnusedVariable,
            "x".to_string(),
            vec![Part { span: sp(1), fix: Fix::Underscore }]
        )]
    );
}

#[test]
fn loop_body_converges_without_findings() {
    // fn f() { loop { let y = compute(); use_val(y); } }
    let body = function(
        vec![],
        block(
            1,
            vec![expr(
                2,
                ExprKind::Loop(Box::new(block(
                    3,
                    vec![
                        let_(4, bind(5, "y"), Some(call(6, vec![lit(7)]))),
                        call(8, vec![lit(9), local(10, 5)]),
                    ],
                ))),
            )],
        ),
    );
    let ds = analyze(&body).unwrap();
    assert_eq!(summary(&ds), vec![]);
}

#[test]
fn capture_by_value_never_read() {
    // fn f(v: i32) -> impl FnOnce() { move || { v = 0; } }
    let closure = Body {
        kind: BodyKind::Closure(ClosureKind::FnOnce),
        upvars: vec![Upvar { var: 1, name: "v".to_string(), span: sp(20), by_ref: false }],
        params: vec![],
        value: block(10, vec![assign(11, local(12, 1), lit(13))]),
    };
    let body =
        function(vec![bind(1, "v")], block(2, vec![expr(3, ExprKind::Closure(Box::new(closure)))]));
    let ds = analyze(&body).unwrap();
    assert_eq!(
        summary(&ds),
        vec![
            (
                DiagnosticKind::DeadAssignment,
                "v".to_string(),
                vec![Part { span: sp(12), fix: Fix::Nothing }]
            ),
            (
                DiagnosticKind::UnusedCapture,
                "v".to_string(),
                vec![Part { span: sp(20), fix: Fix::Nothing }]
            ),
        ]
    );
}

#[test]
fn unresolved_names_stop_the_analysis() {
    let body = function(vec![], block(1, vec![local(2, 99)]));
    assert_eq!(analyze(&body).unwrap_err(), Violation::NoVariable);
    let body = function(vec![], block(1, vec![expr(2, ExprKind::Break(None, None))]));
    assert_eq!(analyze(&body).unwrap_err(), Violation::UnresolvedBreak);
    let body = function(vec![], block(1, vec![expr(2, ExprKind::Continue(Some(7)))]));
    assert_eq!(analyze(&body).unwrap_err(), Violation::UnresolvedContinue);
}

#[test]
fn one_leading_underscore_silences() {
    // fn f(_a: i32, __b: i32, c: i32) { let _x = 1; let __y = 2; let _ = 3; }
    let body = function(
        vec![bind(1, "_a"), bind(2, "__b"), bind(3, "c")],
        block(
            4,
            vec![
                let_(5, bind(6, "_x"), Some(lit(7))),
                let_(8, bind(9, "__y"), Some(lit(10))),
                let_(11, bind(12, "_"), Some(lit(13))),
            ],
        ),
    );
    let ds = analyze(&body).unwrap();
    assert_eq!(
        summary(&ds),
        vec![
            (
                DiagnosticKind::UnusedVariable,
                "__y".to_string(),
                vec![Part { span: sp(9), fix: Fix::Underscore }]
            ),
            (
                DiagnosticKind::UnusedVariable,
                "__b".to_string(),
                vec![Part { span: sp(2), fix: Fix::Underscore }]
            ),
            (
                DiagnosticKind::UnusedVariable,
                "c".to_string(),
                vec![Part { span: sp(3), fix: Fix::Underscore }]
            ),
        ]
    );
}

#[test]
fn unused_self_and_unnamed_are_silent() {
    let body = function(vec![bind(1, "self"), bind(2, "")], block(3, vec![]));
    assert_eq!(summary(&analyze(&body).unwrap()), vec![]);
}

#[test]
fn shorthand_field_is_ignored_not_renamed() {
    // let S { x, y: z } = s;   with x and z unused
    let fields = pat(
        3,
        false,
        PatKind::Tuple(vec![
            pat(4, true, PatKind::Binding("x".to_string(), None)),
            pat(5, false, PatKind::Binding("z".to_string(), None)),
        ]),
    );
    let body = function(vec![], block(1, vec![let_(2, fields, Some(lit(6)))]));
    let ds = analyze(&body).unwrap();
    assert_eq!(
        summary(&ds),
        vec![
            (
                DiagnosticKind::UnusedVariable,
                "x".to_string(),
                vec![Part { span: sp(4), fix: Fix::IgnoreField }]
            ),
            (
                DiagnosticKind::UnusedVariable,
                "z".to_string(),
                vec![Part { span: sp(5), fix: Fix::Underscore }]
            ),
        ]
    );
    assert_eq!(ds[0].parts[0].replacement(&ds[0].name), Some("x: _".to_string()));
    assert_eq!(ds[1].parts[0].replacement(&ds[1].name), Some("_z".to_string()));
}

#[test]
fn alternatives_share_one_finding() {
    // match s { A { x } | B(x) => 0 }
    let alternatives = pat(
        4,
        false,
        PatKind::Or(vec![
            pat(5, false, PatKind::Tuple(vec![pat(6, true, PatKind::Binding("x".to_string(), None))])),
            pat(7, false, PatKind::Tuple(vec![pat(8, false, PatKind::Binding("x".to_string(), None))])),
        ]),
    );
    let body = function(
        vec![],
        block(
            1,
            vec![expr(2, ExprKind::Match(Box::new(lit(3)), vec![arm(alternatives, None, lit(9))]))],
        ),
    );
    let ds = analyze(&body).unwrap();
    assert_eq!(
        summary(&ds),
        vec![(
            DiagnosticKind::UnusedVariable,
            "x".to_string(),
            vec![
                Part { span: sp(6), fix: Fix::IgnoreField },
                Part { span: sp(8), fix: Fix::Wildcard }
            ]
        )]
    );
    assert_eq!(ds[0].parts[1].replacement(&ds[0].name), Some("_".to_string()));
    assert_eq!(Part { span: sp(0), fix: Fix::Nothing }.replacement(&ds[0].name), None);
}

#[test]
fn match_arm_binding_used_in_guard() {
    // fn f(s: S) { match s { a if a => 1, b => 2 } }
    let body = function(
        vec![bind(1, "s")],
        block(
            2,
            vec![expr(
                3,
                ExprKind::Match(
                    Box::new(local(4, 1)),
                    vec![
                        arm(bind(5, "a"), Some(local(6, 5)), lit(7)),
                        arm(bind(8, "b"), None, lit(9)),
                    ],
                ),
            )],
        ),
    );
    let ds = analyze(&body).unwrap();
    assert_eq!(
        summary(&ds),
        vec![(
            DiagnosticKind::UnusedVariable,
            "b".to_string(),
            vec![Part { span: sp(8), fix: Fix::Underscore }]
        )]
    );
}

#[test]
fn compound_assignment_reads_without_using() {
    // fn f() { let mut x = 0; x += 1; }
    let body = function(
        vec![],
        block(1, vec![let_(2, bind(3, "x"), Some(lit(4))), assign_op(5, local(6, 3), lit(7))]),
    );
    let ds = analyze(&body).unwrap();
    assert_eq!(
        summary(&ds),
        vec![
            plain(DiagnosticKind::UnusedAssigned, "x", &[3]),
            plain(DiagnosticKind::DeadAssignment, "x", &[6]),
        ]
    );
}

#[test]
fn assignment_in_a_loop_is_read_by_the_next_round() {
    // fn f() { let mut x = 0; loop { use_val(x); x = 1; } }
    let body = function(
        vec![],
        block(
            1,
            vec![
                let_(2, bind(3, "x"), Some(lit(4))),
                loop_(
                    5,
                    block(6, vec![call(7, vec![local(8, 3)]), assign(9, local(10, 3), lit(11))]),
                ),
            ],
        ),
    );
    assert_eq!(summary(&analyze(&body).unwrap()), vec![]);
}

#[test]
fn assignment_before_break_is_dead() {
    // fn f() { let mut x = 0; loop { use_val(x); x = 1; break; } }
    let body = function(
        vec![],
        block(
            1,
            vec![
                let_(2, bind(3, "x"), Some(lit(4))),
                loop_(
                    5,
                    block(
                        6,
                        vec![
                            call(7, vec![local(8, 3)]),
                            assign(9, local(10, 3), lit(11)),
                            expr(12, ExprKind::Break(Some(5), None)),
                        ],
                    ),
                ),
            ],
        ),
    );
    assert_eq!(
        summary(&analyze(&body).unwrap()),
        vec![plain(DiagnosticKind::DeadAssignment, "x", &[10])]
    );
}

#[test]
fn continue_goes_back_to_the_loop() {
    // fn f() { let mut x = 0; loop { use_val(x); x = 1; continue; } }
    let body = function(
        vec![],
        block(
            1,
            vec![
                let_(2, bind(3, "x"), Some(lit(4))),
                loop_(
                    5,
                    block(
                        6,
                        vec![
                            call(7, vec![local(8, 3)]),
                            assign(9, local(10, 3), lit(11)),
                            expr(12, ExprKind::Continue(Some(5))),
                        ],
                    ),
                ),
            ],
        ),
    );
    assert_eq!(summary(&analyze(&body).unwrap()), vec![]);
}

#[test]
fn break_out_of_a_named_block() {
    // fn f() { let x = 1; 'a: { break 'a; use_val(x); } }
    let body = function(
        vec![],
        block(
            1,
            vec![
                let_(2, bind(3, "x"), Some(lit(4))),
                expr(
                    5,
                    ExprKind::Block(
                        vec![expr(6, ExprKind::Break(Some(5), None)), call(7, vec![local(8, 3)])],
                        true,
                    ),
                ),
            ],
        ),
    );
    assert_eq!(
        summary(&analyze(&body).unwrap()),
        vec![(
            DiagnosticKind::UnusedVariable,
            "x".to_string(),
            vec![Part { span: sp(3), fix: Fix::Underscore }]
        )]
    );
    // A block that no `break` names records no target.
    let body = function(
        vec![],
        block(1, vec![expr(5, ExprKind::Block(vec![expr(6, ExprKind::Break(Some(5), None))], false))]),
    );
    assert_eq!(analyze(&body).unwrap_err(), Violation::UnresolvedBreak);
}

#[test]
fn nothing_is_read_after_a_call_that_never_returns() {
    // fn f() { let x = 1; abort(); use_val(x); }
    let body = function(
        vec![],
        block(
            1,
            vec![
                let_(2, bind(3, "x"), Some(lit(4))),
                expr(5, ExprKind::Compound(vec![lit(6)], true)),
                call(7, vec![local(8, 3)]),
            ],
        ),
    );
    assert_eq!(
        summary(&analyze(&body).unwrap()),
        vec![(
            DiagnosticKind::UnusedVariable,
            "x".to_string(),
            vec![Part { span: sp(3), fix: Fix::Underscore }]
        )]
    );
    // The same body with a call that returns has nothing to report.
    let body = function(
        vec![],
        block(
            1,
            vec![
                let_(2, bind(3, "x"), Some(lit(4))),
                expr(5, ExprKind::Compound(vec![lit(6)], false)),
                call(7, vec![local(8, 3)]),
            ],
        ),
    );
    assert_eq!(summary(&analyze(&body).unwrap()), vec![]);
}

#[test]
fn return_cuts_off_what_follows() {
    // fn f(x: i32, y: i32) -> i32 { return x; y }
    let body = function(
        vec![bind(1, "x"), bind(2, "y")],
        block(3, vec![expr(4, ExprKind::Ret(Some(Box::new(local(5, 1))))), local(6, 2)]),
    );
    assert_eq!(
        summary(&analyze(&body).unwrap()),
        vec![(
            DiagnosticKind::UnusedVariable,
            "y".to_string(),
            vec![Part { span: sp(2), fix: Fix::Underscore }]
        )]
    );
}

#[test]
fn both_operands_of_a_lazy_operator_count() {
    // fn f(a: bool, b: bool) -> bool { a && b }
    let body = function(
        vec![bind(1, "a"), bind(2, "b")],
        block(3, vec![expr(4, ExprKind::Lazy(Box::new(local(5, 1)), Box::new(local(6, 2))))]),
    );
    assert_eq!(summary(&analyze(&body).unwrap()), vec![]);
}

#[test]
fn value_passed_but_overwritten_first() {
    // fn f(mut x: i32) -> i32 { x = 1; x }
    let body = function(
        vec![bind(1, "x")],
        block(2, vec![assign(3, local(4, 1), lit(5)), local(6, 1)]),
    );
    assert_eq!(
        summary(&analyze(&body).unwrap()),
        vec![plain(DiagnosticKind::DeadArgument, "x", &[1])]
    );
}

#[test]
fn field_of_a_place_is_a_read() {
    // fn f(mut x: S) { x.f = 1; }
    let place = expr(4, ExprKind::Compound(vec![local(5, 1)], false));
    let body = function(vec![bind(1, "x")], block(2, vec![assign(3, place, lit(6))]));
    assert_eq!(summary(&analyze(&body).unwrap()), vec![]);
}

#[test]
fn capture_by_reference_is_read_after_the_closure() {
    // |p| { v = p; }  with v captured by reference
    let body = closure(
        ClosureKind::FnMut,
        vec![upvar(1, "v", 20, true)],
        vec![bind(2, "p")],
        block(3, vec![assign(4, local(5, 1), local(6, 2))]),
    );
    assert_eq!(summary(&analyze(&body).unwrap()), vec![]);
}

#[test]
fn capture_by_value_written_and_never_read() {
    // move |p| { v = p; }  in a closure that can be called again
    let body = closure(
        ClosureKind::FnMut,
        vec![upvar(1, "v", 20, false)],
        vec![bind(2, "p")],
        block(3, vec![assign(4, local(5, 1), local(6, 2))]),
    );
    assert_eq!(
        summary(&analyze(&body).unwrap()),
        vec![
            plain(DiagnosticKind::DeadAssignment, "v", &[5]),
            plain(DiagnosticKind::UnusedCapture, "v", &[20]),
        ]
    );
}

#[test]
fn capture_by_value_lives_on_between_calls() {
    // move || { use_val(v); v = 1; }  reads on the next call what this one wrote
    let value = block(3, vec![call(4, vec![local(5, 1)]), assign(6, local(7, 1), lit(8))]);
    let again =
        closure(ClosureKind::FnMut, vec![upvar(1, "v", 20, false)], vec![], value);
    assert_eq!(summary(&analyze(&again).unwrap()), vec![]);
    // A closure that runs once leaves nothing for a later call.
    let value = block(3, vec![call(4, vec![local(5, 1)]), assign(6, local(7, 1), lit(8))]);
    let once =
        closure(ClosureKind::FnOnce, vec![upvar(1, "v", 20, false)], vec![], value);
    assert_eq!(
        summary(&analyze(&once).unwrap()),
        vec![plain(DiagnosticKind::DeadAssignment, "v", &[7])]
    );
    let value = block(3, vec![call(4, vec![local(5, 1)]), assign(6, local(7, 1), lit(8))]);
    let generator =
        closure(ClosureKind::Generator, vec![upvar(1, "v", 20, false)], vec![], value);
    assert_eq!(
        summary(&analyze(&generator).unwrap()),
        vec![plain(DiagnosticKind::DeadAssignment, "v", &[7])]
    );
}

#[test]
fn parameter_of_a_closure_is_defined_on_each_call() {
    // move |mut p| { use_val(p); p = 1; }  the write to p is lost at the next call
    let body = closure(
        ClosureKind::Fn,
        vec![],
        vec![bind(2, "p")],
        block(3, vec![call(4, vec![local(5, 2)]), assign(6, local(7, 2), lit(8))]),
    );
    assert_eq!(
        summary(&analyze(&body).unwrap()),
        vec![plain(DiagnosticKind::DeadAssignment, "p", &[7])]
    );
}

#[test]
fn closure_is_analysed_where_it_stands() {
    // fn f(v: i32) { let a = 1; (move || { let b = 2; use_val(v); })(); let c = 3; }
    let inner = closure(
        ClosureKind::FnOnce,
        vec![upvar(1, "v", 30, false)],
        vec![],
        block(20, vec![let_(21, bind(22, "b"), Some(lit(23))), call(24, vec![local(25, 1)])]),
    );
    let body = function(
        vec![bind(1, "v")],
        block(
            2,
            vec![
                let_(3, bind(4, "a"), Some(lit(5))),
                call(6, vec![expr(7, ExprKind::Closure(Box::new(inner)))]),
                let_(8, bind(9, "c"), Some(lit(10))),
            ],
        ),
    );
    let ds = analyze(&body).unwrap();
    let names: Vec<String> = ds.iter().map(|d| d.name.clone()).collect();
    assert_eq!(names, vec!["a".to_string(), "b".to_string(), "c".to_string()]);
    assert!(ds.iter().all(|d| d.kind == DiagnosticKind::UnusedVariable));
}

#[test]
fn analysing_again_gives_the_same_list() {
    let make = || {
        function(
            vec![bind(1, "p"), bind(2, "q")],
            block(
                3,
                vec![
                    let_(4, bind(5, "x"), Some(lit(6))),
                    loop_(
                        7,
                        block(
                            8,
                            vec![
                                assign(9, local(10, 5), local(11, 1)),
                                expr(
                                    12,
                                    ExprKind::Match(
                                        Box::new(local(13, 1)),
                                        vec![
                                            arm(bind(14, "a"), None, expr(15, ExprKind::Break(Some(7), None))),
                                            arm(bind(16, "b"), None, local(17, 16)),
                                        ],
                                    ),
                                ),
                            ],
                        ),
                    ),
                ],
            ),
        )
    };
    let body = make();
    let first = analyze(&body).unwrap();
    let second = analyze(&body).unwrap();
    let third = analyze(&make()).unwrap();
    assert_eq!(summary(&first), summary(&second));
    assert_eq!(summary(&first), summary(&third));
    assert_eq!(
        summary(&first),
        vec![
            plain(DiagnosticKind::UnusedAssigned, "x", &[5]),
            plain(DiagnosticKind::DeadAssignment, "x", &[10]),
            (
                DiagnosticKind::UnusedVariable,
                "a".to_string(),
                vec![Part { span: sp(14), fix: Fix::Underscore }]
            ),
            (
                DiagnosticKind::UnusedVariable,
                "q".to_string(),
                vec![Part { span: sp(2), fix: Fix::Underscore }]
            ),
        ]
    );
}

#[test]
fn a_body_too_large_for_the_table_is_refused() {
    let mut stmts = Vec::new();
    for i in 0..70_000u64 {
        stmts.push(let_(3 * i + 2, bind(3 * i + 3, "_x"), None));
    }
    let body = function(vec![], block(1, stmts));
    assert_eq!(analyze(&body).unwrap_err(), Violation::TooLarge);
}

#[test]
fn an_id_used_twice_can_keep_a_loop_from_settling() {
    // The loop and the binding in its body share an id, so each round
    // clears at the definition what the merge just added.
    let body = function(
        vec![],
        block(
            1,
            vec![loop_(
                5,
                block(
                    2,
                    vec![call(3, vec![local(7, 5)]), let_(4, bind(5, "x"), None), call(8, vec![local(6, 5)])],
                ),
            )],
        ),
    );
    assert_eq!(analyze(&body).unwrap_err(), Violation::NotConverged);
}
