//! Tests of the rule contract, the registry, and dispatch.

use statix::{
    all_lints, AnyLint, Explain, Metadata, NodeKind, Registry, Rule, SessionInfo, Severity,
    TextSpan, Element,
};

#[test]
fn registry_lookup_finds_every_rule_under_its_kinds() {
    let lints = all_lints();
    let reg = Registry::build(&lints);
    let on_key_value = reg.lookup(&NodeKind::KeyValue);
    assert_eq!(on_key_value, lints);
}

#[test]
fn registry_lookup_of_unmatched_kinds_is_empty() {
    let lints = all_lints();
    let reg = Registry::build(&lints);
    assert!(reg.lookup(&NodeKind::Ident).is_empty());
    assert!(reg.lookup(&NodeKind::Key).is_empty());
    assert!(reg.lookup(&NodeKind::Select).is_empty());
    assert!(reg.lookup(&NodeKind::Token(17)).is_empty());
    assert!(reg.lookup(&NodeKind::OtherNode(3)).is_empty());
}

#[test]
fn dispatch_agrees_with_match_with() {
    let lints = all_lints();
    let reg = Registry::build(&lints);
    let kinds = [
        NodeKind::KeyValue,
        NodeKind::Key,
        NodeKind::Select,
        NodeKind::Ident,
        NodeKind::OtherNode(0),
        NodeKind::Token(42),
    ];
    for kind in kinds.iter() {
        let dispatched = reg.lookup(kind);
        for l in lints.iter() {
            assert_eq!(dispatched.contains(l), l.match_with(kind));
        }
    }
}

#[test]
fn metadata_identity() {
    for l in all_lints() {
        match l {
            AnyLint::ManualInherit(_) => {
                assert_eq!(l.name(), "manual inherit");
                assert_eq!(l.note(), "Assignment instead of inherit");
                assert_eq!(l.code(), 3);
            }
            AnyLint::ManualInheritFrom(_) => {
                assert_eq!(l.name(), "manual inherit from");
                assert_eq!(l.note(), "Assignment instead of inherit from");
                assert_eq!(l.code(), 4);
            }
        }
        let kinds = l.match_kind();
        assert_eq!(kinds, vec![NodeKind::KeyValue]);
        assert!(l.match_with(&NodeKind::KeyValue));
        assert!(!l.match_with(&NodeKind::Ident));
        let empty = l.report();
        assert_eq!(empty.note, l.note());
        assert_eq!(empty.code, l.code());
        assert!(matches!(empty.severity, Severity::Warn));
        assert!(empty.diagnostics.is_empty());
        assert!(!l.explanation().is_empty());
    }
}

/// Build the tree for `k = v;` shapes by hand, as the parser would.
fn ident(start: usize, end: usize) -> Element {
    Element { kind: NodeKind::Ident, span: TextSpan::new(start, end), children: Vec::new() }
}

#[test]
fn manual_inherit_fires_on_hand_built_binding() {
    // source: x = x;
    let src = b"x = x;".to_vec();
    let key = Element {
        kind: NodeKind::Key,
        span: TextSpan::new(0, 1),
        children: vec![ident(0, 1)],
    };
    let node = Element {
        kind: NodeKind::KeyValue,
        span: TextSpan::new(0, 6),
        children: vec![key, ident(4, 5)],
    };
    let sess = SessionInfo::new();
    let lints = all_lints();
    let fired: Vec<&AnyLint> =
        lints.iter().filter(|l| l.validate(&node, &src, &sess).is_some()).collect();
    assert_eq!(fired.len(), 1);
    let report = fired[0].validate(&node, &src, &sess).unwrap();
    assert_eq!(report.code, 3);
    let sugg = report.diagnostics[0].suggestion.as_ref().unwrap();
    assert_eq!(sugg.fix, b"inherit x;".to_vec());
}

#[test]
fn manual_inherit_does_not_fire_on_different_names() {
    // source: x = y;
    let src = b"x = y;".to_vec();
    let key = Element {
        kind: NodeKind::Key,
        span: TextSpan::new(0, 1),
        children: vec![ident(0, 1)],
    };
    let node = Element {
        kind: NodeKind::KeyValue,
        span: TextSpan::new(0, 6),
        children: vec![key, ident(4, 5)],
    };
    let sess = SessionInfo::new();
    for l in all_lints() {
        assert!(l.validate(&node, &src, &sess).is_none());
    }
}
