//! The multiplicity lattice for call classification.
//!
//! A `CallingStyle` says how many times a callee may run per entry into its
//! caller. Each style is a membership set over the three primitive
//! properties `{ can-happen-zero-times, can-happen-exactly-once,
//! can-happen-more-than-once }`; combining two enclosing contexts is the
//! union of their property sets, surfaced again as one of the four styles.

use vstd::prelude::*;

verus! {

/// A multiplicity lattice value: how many times a callee may be invoked
/// per entry into its caller.
#[derive(Debug, Clone, Copy, PartialEq, Eq, Structural)]
pub enum CallingStyle {
    Once,
    ZeroOrOnce,
    ZeroOrMore,
    OneOrMore,
}

impl CallingStyle {
    /// Membership set over the primitive properties, with
    /// can-happen-zero-times in bit 0, can-happen-exactly-once in bit 1 and
    /// can-happen-more-than-once in bit 2. A pattern without bit 1 and
    /// bit 2 (nothing can ever happen) is not a surfaced value.
    pub open spec fn spec_bitset(self) -> u8 {
        match self {
            CallingStyle::Once => 0b010u8,
            CallingStyle::ZeroOrOnce => 0b011u8,
            CallingStyle::ZeroOrMore => 0b111u8,
            CallingStyle::OneOrMore => 0b110u8,
        }
    }

    pub fn bitset(self) -> (r: u8)
        ensures
            r == self.spec_bitset(),
    {
        match self {
            CallingStyle::Once => 0b010,
            CallingStyle::ZeroOrOnce => 0b011,
            CallingStyle::ZeroOrMore => 0b111,
            CallingStyle::OneOrMore => 0b110,
        }
    }

    /// Join two styles: the style whose property set is the union of the
    /// two property sets. Written as a total table; `lemma_join_is_bitset_or`
    /// relates it to the bitset algebra.
    pub open spec fn spec_join(self, other: CallingStyle) -> CallingStyle {
        match (self, other) {
            (CallingStyle::Once, o) => o,
            (s, CallingStyle::Once) => s,
            (CallingStyle::ZeroOrMore, _) => CallingStyle::ZeroOrMore,
            (_, CallingStyle::ZeroOrMore) => CallingStyle::ZeroOrMore,
            (CallingStyle::ZeroOrOnce, CallingStyle::ZeroOrOnce) => CallingStyle::ZeroOrOnce,
            (CallingStyle::OneOrMore, CallingStyle::OneOrMore) => CallingStyle::OneOrMore,
            (CallingStyle::ZeroOrOnce, CallingStyle::OneOrMore) => CallingStyle::ZeroOrMore,
            (CallingStyle::OneOrMore, CallingStyle::ZeroOrOnce) => CallingStyle::ZeroOrMore,
        }
    }

    /// Combine the style of an enclosing context with this one, as when one
    /// construct is nested in another.
    pub fn join(self, other: CallingStyle) -> (r: CallingStyle)
        ensures
            r == self.spec_join(other),
    {
        match (self, other) {
            (CallingStyle::Once, o) => o,
            (s, CallingStyle::Once) => s,
            (CallingStyle::ZeroOrMore, _) => CallingStyle::ZeroOrMore,
            (_, CallingStyle::ZeroOrMore) => CallingStyle::ZeroOrMore,
            (CallingStyle::ZeroOrOnce, CallingStyle::ZeroOrOnce) => CallingStyle::ZeroOrOnce,
            (CallingStyle::OneOrMore, CallingStyle::OneOrMore) => CallingStyle::OneOrMore,
            (CallingStyle::ZeroOrOnce, CallingStyle::OneOrMore) => CallingStyle::ZeroOrMore,
            (CallingStyle::OneOrMore, CallingStyle::ZeroOrOnce) => CallingStyle::ZeroOrMore,
        }
    }
}

/// The join really is the bitset union: the property set of the joined
/// style is the bitwise or of the two property sets.
pub proof fn lemma_join_is_bitset_or(a: CallingStyle, b: CallingStyle)
    ensures
        a.spec_join(b).spec_bitset() == (a.spec_bitset() | b.spec_bitset()),
{
    assert((0b010u8 | 0b010u8) == 0b010u8) by (bit_vector);
    assert((0b010u8 | 0b011u8) == 0b011u8) by (bit_vector);
    assert((0b010u8 | 0b111u8) == 0b111u8) by (bit_vector);
    assert((0b010u8 | 0b110u8) == 0b110u8) by (bit_vector);
    assert((0b011u8 | 0b010u8) == 0b011u8) by (bit_vector);
    assert((0b011u8 | 0b011u8) == 0b011u8) by (bit_vector);
    assert((0b011u8 | 0b111u8) == 0b111u8) by (bit_vector);
    assert((0b011u8 | 0b110u8) == 0b111u8) by (bit_vector);
    assert((0b111u8 | 0b010u8) == 0b111u8) by (bit_vector);
    assert((0b111u8 | 0b011u8) == 0b111u8) by (bit_vector);
    assert((0b111u8 | 0b111u8) == 0b111u8) by (bit_vector);
    assert((0b111u8 | 0b110u8) == 0b111u8) by (bit_vector);
    assert((0b110u8 | 0b010u8) == 0b110u8) by (bit_vector);
    assert((0b110u8 | 0b011u8) == 0b111u8) by (bit_vector);
    assert((0b110u8 | 0b111u8) == 0b111u8) by (bit_vector);
    assert((0b110u8 | 0b110u8) == 0b110u8) by (bit_vector);
}

/// The join is commutative.
pub proof fn lemma_join_commutative(a: CallingStyle, b: CallingStyle)
    ensures
        a.spec_join(b) == b.spec_join(a),
{
}

/// The join is associative.
pub proof fn lemma_join_associative(a: CallingStyle, b: CallingStyle, c: CallingStyle)
    ensures
        a.spec_join(b).spec_join(c) == a.spec_join(b.spec_join(c)),
{
}

} // verus!
