use turbo_static::classify::CallingStyleVisitor;
use turbo_static::model::{Identifier, IdentifierReference, Position, SourceRange};
use turbo_static::style::CallingStyle;
use turbo_static::tree::{Declaration, Node};

fn pos(line: u32, character: u32) -> Position {
    Position { line, character }
}

fn range(line: u32) -> SourceRange {
    SourceRange {
        start: pos(line, 0),
        end: pos(line, 10),
    }
}

fn caller(name: &str) -> Identifier {
    Identifier {
        name: name.to_string(),
        path: "/src/lib.rs".to_string(),
        range: range(1),
    }
}

fn edge(name: &str, sites: Vec<SourceRange>) -> IdentifierReference {
    IdentifierReference {
        identifier: caller(name),
        references: sites,
    }
}

fn decl(name: &str, body: Vec<Node>) -> Declaration {
    Declaration {
        name: name.to_string(),
        annotations: vec![],
        body,
    }
}

fn classify(d: &Declaration, reference: IdentifierReference) -> Option<CallingStyle> {
    let mut v = CallingStyleVisitor::new(reference);
    v.visit_declaration(d);
    v.result()
}

#[test]
fn direct_call_is_once() {
    let site = range(3);
    let d = decl("caller", vec![Node::Call { range: site }]);
    assert_eq!(classify(&d, edge("caller", vec![site])), Some(CallingStyle::Once));
}

#[test]
fn call_inside_if_is_zero_or_once() {
    let site = range(3);
    let d = decl(
        "caller",
        vec![Node::If {
            then_branch: vec![Node::Call { range: site }],
            else_branch: vec![],
        }],
    );
    assert_eq!(classify(&d, edge("caller", vec![site])), Some(CallingStyle::ZeroOrOnce));
}

#[test]
fn call_inside_for_loop_is_zero_or_more() {
    let site = range(3);
    let d = decl(
        "caller",
        vec![Node::ForLoop {
            body: vec![Node::Call { range: site }],
        }],
    );
    assert_eq!(classify(&d, edge("caller", vec![site])), Some(CallingStyle::ZeroOrMore));
}

#[test]
fn call_inside_indefinite_loop_is_zero_or_more() {
    let site = range(3);
    let d = decl(
        "caller",
        vec![Node::Loop {
            body: vec![Node::Call { range: site }],
        }],
    );
    assert_eq!(classify(&d, edge("caller", vec![site])), Some(CallingStyle::ZeroOrMore));
}

#[test]
fn call_inside_closure_is_zero_or_more() {
    let site = range(3);
    let d = decl(
        "caller",
        vec![Node::Closure {
            body: vec![Node::Call { range: site }],
        }],
    );
    assert_eq!(classify(&d, edge("caller", vec![site])), Some(CallingStyle::ZeroOrMore));
}

#[test]
fn no_matching_call_site_yields_no_classification() {
    let d = decl("caller", vec![Node::Call { range: range(3) }]);
    assert_eq!(classify(&d, edge("caller", vec![range(9)])), None);
}

#[test]
fn declaration_with_other_name_is_not_entered() {
    let site = range(3);
    let d = decl("someone_else", vec![Node::Call { range: site }]);
    assert_eq!(classify(&d, edge("caller", vec![site])), None);
}

#[test]
fn declarations_match_by_name_not_by_range() {
    let site = range(7);
    let d = decl("caller", vec![Node::Call { range: site }]);
    // The edge's caller identifier points at a different declaration range;
    // the name alone decides the match.
    let mut reference = edge("caller", vec![site]);
    reference.identifier.range = range(40);
    assert_eq!(classify(&d, reference), Some(CallingStyle::Once));
}

#[test]
fn two_call_sites_fold_together() {
    let direct = range(3);
    let guarded = range(5);
    let d = decl(
        "caller",
        vec![
            Node::Call { range: direct },
            Node::If {
                then_branch: vec![Node::Call { range: guarded }],
                else_branch: vec![],
            },
        ],
    );
    // Once joined with ZeroOrOnce.
    assert_eq!(
        classify(&d, edge("caller", vec![direct, guarded])),
        Some(CallingStyle::ZeroOrOnce)
    );
}

#[test]
fn nested_if_inside_loop_folds_to_zero_or_more() {
    let site = range(4);
    let d = decl(
        "caller",
        vec![Node::ForLoop {
            body: vec![Node::If {
                then_branch: vec![Node::Call { range: site }],
                else_branch: vec![],
            }],
        }],
    );
    assert_eq!(classify(&d, edge("caller", vec![site])), Some(CallingStyle::ZeroOrMore));
}
