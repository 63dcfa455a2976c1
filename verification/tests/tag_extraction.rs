use turbo_static::tags::{extract_tags, TaskVisitor};
use turbo_static::tree::{Annotation, Declaration, MetaToken};

fn marker(args: Option<Vec<MetaToken>>) -> Annotation {
    Annotation {
        segments: vec!["turbo_tasks".to_string(), "function".to_string()],
        args,
    }
}

fn ident(s: &str) -> MetaToken {
    MetaToken::Ident(s.to_string())
}

#[test]
fn marker_without_arguments_yields_empty_tags() {
    let attrs = vec![marker(None)];
    assert_eq!(extract_tags(&attrs), Some(vec![]));
}

#[test]
fn marker_with_three_bare_identifiers_yields_them_in_order() {
    let attrs = vec![marker(Some(vec![ident("a"), ident("b"), ident("c")]))];
    assert_eq!(
        extract_tags(&attrs),
        Some(vec!["a".to_string(), "b".to_string(), "c".to_string()])
    );
}

#[test]
fn unrelated_annotation_yields_none() {
    let attrs = vec![Annotation {
        segments: vec!["serde".to_string(), "skip".to_string()],
        args: None,
    }];
    assert_eq!(extract_tags(&attrs), None);
}

#[test]
fn one_segment_path_is_not_the_marker() {
    let attrs = vec![Annotation {
        segments: vec!["function".to_string()],
        args: None,
    }];
    assert_eq!(extract_tags(&attrs), None);
}

#[test]
fn non_identifier_tokens_are_skipped() {
    let attrs = vec![marker(Some(vec![
        ident("fs"),
        MetaToken::Other,
        ident("network"),
        MetaToken::Other,
    ]))];
    assert_eq!(
        extract_tags(&attrs),
        Some(vec!["fs".to_string(), "network".to_string()])
    );
}

#[test]
fn first_matching_annotation_wins() {
    let attrs = vec![
        Annotation {
            segments: vec!["inline".to_string()],
            args: None,
        },
        marker(Some(vec![ident("first")])),
        marker(Some(vec![ident("second")])),
    ];
    assert_eq!(extract_tags(&attrs), Some(vec!["first".to_string()]));
}

#[test]
fn visitor_collects_tagged_declarations_only() {
    let tagged = Declaration {
        name: "fetch_assets".to_string(),
        annotations: vec![marker(Some(vec![ident("fs")]))],
        body: vec![],
    };
    let untagged = Declaration {
        name: "helper".to_string(),
        annotations: vec![],
        body: vec![],
    };
    let mut v = TaskVisitor::new();
    v.visit_declaration(&tagged);
    v.visit_declaration(&untagged);
    assert_eq!(v.results.len(), 1);
    assert_eq!(v.results[0].0, "fetch_assets".to_string());
    assert_eq!(v.results[0].1, vec!["fs".to_string()]);
}
