use liveness::diagnostics::{should_warn_name, Fix, Part};
use liveness::hir::{Binding, BodyKind, ClosureKind, Pat, PatKind, Span};

fn sp(id: u64) -> Span {
    Span { lo: id as u32, hi: id as u32 + 1 }
}

fn pat(id: u64, shorthand_field: bool, kind: PatKind) -> Pat {
    Pat { id, span: sp(id), shorthand_field, kind }
}

fn bind(id: u64, name: &str) -> Pat {
    pat(id, false, PatKind::Binding(name.to_string(), None))
}

fn flat(bs: &[Binding]) -> Vec<(u64, String, Span, bool, bool)> {
    bs.iter().map(|b| (b.id, b.name.clone(), b.span, b.is_shorthand, b.first)).collect()
}

#[test]
fn bindings_come_in_walk_order() {
    // (a, b @ (c, _), S { d, e: f })
    let p = pat(
        1,
        false,
        PatKind::Tuple(vec![
            bind(2, "a"),
            pat(
                3,
                false,
                PatKind::Binding(
                    "b".to_string(),
                    Some(Box::new(pat(
                        4,
                        false,
                        PatKind::Tuple(vec![bind(5, "c"), pat(6, false, PatKind::Wild)]),
                    ))),
                ),
            ),
            pat(
                7,
                false,
                PatKind::Tuple(vec![
                    pat(8, true, PatKind::Binding("d".to_string(), None)),
                    bind(9, "f"),
                ]),
            ),
        ]),
    );
    assert_eq!(
        flat(&p.bindings()),
        vec![
            (2, "a".to_string(), sp(2), false, true),
            (3, "b".to_string(), sp(3), false, true),
            (5, "c".to_string(), sp(5), false, true),
            (8, "d".to_string(), sp(8), true, true),
            (9, "f".to_string(), sp(9), false, true),
        ]
    );
    assert_eq!(flat(&pat(1, false, PatKind::Wild).bindings()), vec![]);
    assert_eq!(flat(&pat(1, false, PatKind::Tuple(vec![])).bindings()), vec![]);
    assert_eq!(flat(&pat(1, false, PatKind::Or(vec![])).bindings()), vec![]);
}

#[test]
fn only_first_alternatives_declare() {
    // (a | a, (b | b) | (b | b))
    let p = pat(
        1,
        false,
        PatKind::Tuple(vec![
            pat(2, false, PatKind::Or(vec![bind(3, "a"), bind(4, "a")])),
            pat(
                5,
                false,
                PatKind::Or(vec![
                    pat(6, false, PatKind::Or(vec![bind(7, "b"), bind(8, "b")])),
                    pat(9, false, PatKind::Or(vec![bind(10, "b"), bind(11, "b")])),
                ]),
            ),
        ]),
    );
    let firsts: Vec<(u64, bool)> = p.bindings().iter().map(|b| (b.id, b.first)).collect();
    assert_eq!(
        firsts,
        vec![(3, true), (4, false), (7, true), (8, false), (10, false), (11, false)]
    );
    // Inside a later alternative nothing declares, however it is nested.
    let mut out = Vec::new();
    p.each_binding(false, &mut out);
    assert!(out.iter().all(|b| !b.first));
    assert_eq!(out.len(), 6);
}

#[test]
fn names_that_ask_for_silence() {
    for (name, warn) in [
        ("x", true),
        ("_x", false),
        ("__x", true),
        ("___", true),
        ("_", false),
        ("", false),
        ("x_", true),
        ("self", true),
        ("é", true),
        ("_é", false),
    ] {
        assert_eq!(should_warn_name(&name.to_string()), warn, "{:?}", name);
    }
}

#[test]
fn text_of_each_edit() {
    let name = "count".to_string();
    let at = |fix| Part { span: sp(1), fix };
    assert_eq!(at(Fix::Nothing).replacement(&name), None);
    assert_eq!(at(Fix::Underscore).replacement(&name), Some("_count".to_string()));
    assert_eq!(at(Fix::IgnoreField).replacement(&name), Some("count: _".to_string()));
    assert_eq!(at(Fix::Wildcard).replacement(&name), Some("_".to_string()));
}

#[test]
fn closures_that_can_run_again() {
    assert!(BodyKind::Closure(ClosureKind::Fn).is_reentrant());
    assert!(BodyKind::Closure(ClosureKind::FnMut).is_reentrant());
    assert!(!BodyKind::Closure(ClosureKind::FnOnce).is_reentrant());
    assert!(!BodyKind::Closure(ClosureKind::Generator).is_reentrant());
    assert!(!BodyKind::Fn.is_reentrant());
}
