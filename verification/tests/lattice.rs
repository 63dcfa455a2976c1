use turbo_static::style::CallingStyle;
use turbo_static::style::CallingStyle::{Once, OneOrMore, ZeroOrMore, ZeroOrOnce};

fn all() -> Vec<CallingStyle> {
    vec![
        CallingStyle::Once,
        CallingStyle::ZeroOrOnce,
        CallingStyle::ZeroOrMore,
        CallingStyle::OneOrMore,
    ]
}

#[test]
fn bitset_values() {
    assert_eq!(CallingStyle::Once.bitset(), 0b010);
    assert_eq!(CallingStyle::ZeroOrOnce.bitset(), 0b011);
    assert_eq!(CallingStyle::ZeroOrMore.bitset(), 0b111);
    assert_eq!(CallingStyle::OneOrMore.bitset(), 0b110);
}

#[test]
fn join_matches_fixed_table() {
    let table = [
        (Once, Once, Once),
        (Once, ZeroOrOnce, ZeroOrOnce),
        (Once, ZeroOrMore, ZeroOrMore),
        (Once, OneOrMore, OneOrMore),
        (ZeroOrOnce, ZeroOrOnce, ZeroOrOnce),
        (ZeroOrOnce, ZeroOrMore, ZeroOrMore),
        (ZeroOrOnce, OneOrMore, ZeroOrMore),
        (ZeroOrMore, ZeroOrMore, ZeroOrMore),
        (ZeroOrMore, OneOrMore, ZeroOrMore),
        (OneOrMore, OneOrMore, OneOrMore),
    ];
    for (a, b, expected) in table {
        assert_eq!(a.join(b), expected, "{a:?} join {b:?}");
        assert_eq!(b.join(a), expected, "{b:?} join {a:?}");
    }
}

#[test]
fn join_is_bitset_or() {
    for a in all() {
        for b in all() {
            assert_eq!(a.join(b).bitset(), a.bitset() | b.bitset());
        }
    }
}

#[test]
fn join_commutative() {
    for a in all() {
        for b in all() {
            assert_eq!(a.join(b), b.join(a));
        }
    }
}

#[test]
fn join_associative() {
    for a in all() {
        for b in all() {
            for c in all() {
                assert_eq!(a.join(b).join(c), a.join(b.join(c)));
            }
        }
    }
}

#[test]
fn join_if_context_with_once() {
    assert_eq!(CallingStyle::ZeroOrOnce.join(CallingStyle::Once), CallingStyle::ZeroOrOnce);
}

#[test]
fn join_loop_with_loop() {
    assert_eq!(CallingStyle::ZeroOrMore.join(CallingStyle::ZeroOrMore), CallingStyle::ZeroOrMore);
}

#[test]
fn join_three_nested_contexts_any_order() {
    // The contributions of a block, a conditional and a loop.
    let contexts = [Once, ZeroOrOnce, ZeroOrMore];
    let orders = [
        [0, 1, 2],
        [0, 2, 1],
        [1, 0, 2],
        [1, 2, 0],
        [2, 0, 1],
        [2, 1, 0],
    ];
    for order in orders {
        let joined = contexts[order[0]].join(contexts[order[1]]).join(contexts[order[2]]);
        assert_eq!(joined, ZeroOrMore);
    }
}
