use turbo_static::codec::{canonical_key, decode_references, encode_references};
use turbo_static::model::{Identifier, IdentifierReference, Position, SourceRange};

fn pos(line: u32, character: u32) -> Position {
    Position { line, character }
}

fn sample_refs() -> Vec<IdentifierReference> {
    vec![
        IdentifierReference {
            identifier: Identifier {
                name: "build_graph".to_string(),
                path: "/repo/src/graph.rs".to_string(),
                range: SourceRange {
                    start: pos(10, 0),
                    end: pos(30, 1),
                },
            },
            references: vec![
                SourceRange {
                    start: pos(14, 8),
                    end: pos(14, 27),
                },
                SourceRange {
                    start: pos(22, 12),
                    end: pos(22, 31),
                },
            ],
        },
        IdentifierReference {
            identifier: Identifier {
                name: "schedule".to_string(),
                path: "/repo/src/sched.rs".to_string(),
                range: SourceRange {
                    start: pos(5, 0),
                    end: pos(9, 1),
                },
            },
            references: vec![],
        },
    ]
}

#[test]
fn decoding_inverts_encoding() {
    let refs = sample_refs();
    let bytes = encode_references(&refs);
    assert_eq!(decode_references(&bytes), Some(refs));
}

#[test]
fn empty_list_round_trips() {
    let refs: Vec<IdentifierReference> = vec![];
    let bytes = encode_references(&refs);
    assert_eq!(decode_references(&bytes), Some(vec![]));
}

#[test]
fn truncated_bytes_are_rejected() {
    let refs = sample_refs();
    let mut bytes = encode_references(&refs);
    bytes.pop();
    assert_eq!(decode_references(&bytes), None);
}

#[test]
fn trailing_garbage_is_rejected() {
    let refs = sample_refs();
    let mut bytes = encode_references(&refs);
    bytes.push(0);
    assert_eq!(decode_references(&bytes), None);
}

#[test]
fn empty_input_is_rejected() {
    assert_eq!(decode_references(&vec![]), None);
}

#[test]
fn canonical_keys_differ_for_distinct_declarations() {
    let a = Identifier {
        name: "task".to_string(),
        path: "/repo/src/a.rs".to_string(),
        range: SourceRange {
            start: pos(3, 0),
            end: pos(3, 20),
        },
    };
    // Same name and path, different position: still a distinct declaration.
    let mut b = a.clone();
    b.range = SourceRange {
        start: pos(8, 0),
        end: pos(8, 20),
    };
    // Same position, different name.
    let mut c = a.clone();
    c.name = "task2".to_string();

    assert_ne!(canonical_key(&a), canonical_key(&b));
    assert_ne!(canonical_key(&a), canonical_key(&c));
    assert_eq!(canonical_key(&a), canonical_key(&a.clone()));
}

#[test]
fn key_is_stable_across_calls() {
    let a = Identifier {
        name: "task".to_string(),
        path: "/repo/src/a.rs".to_string(),
        range: SourceRange {
            start: pos(3, 0),
            end: pos(3, 20),
        },
    };
    assert_eq!(canonical_key(&a), canonical_key(&a));
}
