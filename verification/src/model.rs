//! Canonical references to named symbols and the call edges between them.

use vstd::prelude::*;

verus! {

/// A position inside a source file, as a zero-based line and column.
#[derive(Debug, Clone, Copy, PartialEq, Eq, Structural)]
pub struct Position {
    pub line: u32,
    pub character: u32,
}

/// The extent of a declaration or of a call site inside a source file.
#[derive(Debug, Clone, Copy, PartialEq, Eq, Structural)]
pub struct SourceRange {
    pub start: Position,
    pub end: Position,
}

/// A canonical reference to a named symbol: its name, the absolute path of
/// the file that declares it, and the range of the declaration. Immutable
/// once built; its serialized form is the link cache key.
#[derive(Debug)]
pub struct Identifier {
    pub name: String,
    pub path: String,
    pub range: SourceRange,
}

/// The mathematical value of an [`Identifier`].
pub struct IdentifierModel {
    pub name: Seq<char>,
    pub path: Seq<char>,
    pub range: SourceRange,
}

impl View for Identifier {
    type V = IdentifierModel;

    open spec fn view(&self) -> IdentifierModel {
        IdentifierModel { name: self.name@, path: self.path@, range: self.range }
    }
}

impl Clone for Identifier {
    fn clone(&self) -> (r: Identifier)
        ensures
            r@ == self@,
    {
        Identifier { name: self.name.clone(), path: self.path.clone(), range: self.range }
    }
}

impl PartialEq for Identifier {
    fn eq(&self, other: &Identifier) -> (r: bool) {
        self.name == other.name && self.path == other.path && self.range == other.range
    }
}

impl vstd::std_specs::cmp::PartialEqSpecImpl for Identifier {
    open spec fn obeys_eq_spec() -> bool {
        true
    }

    open spec fn eq_spec(&self, other: &Identifier) -> bool {
        self@ == other@
    }
}

impl Identifier {
    /// True exactly when the two identifiers name the same symbol, without
    /// regard to where each declaration sits: a call-hierarchy item's
    /// selection range may differ from the declaration range the tag scan
    /// recorded, so matching a caller back to a declaration goes by name.
    pub fn same_name(&self, name: &String) -> (r: bool)
        ensures
            r == (self@.name == name@),
    {
        self.name == *name
    }
}

/// One incoming call edge: the caller symbol, and every call site inside
/// the caller that reaches the target the edge was resolved for.
#[derive(Debug)]
pub struct IdentifierReference {
    pub identifier: Identifier,
    pub references: Vec<SourceRange>,
}

/// The mathematical value of an [`IdentifierReference`].
pub struct ReferenceModel {
    pub identifier: IdentifierModel,
    pub references: Seq<SourceRange>,
}

impl View for IdentifierReference {
    type V = ReferenceModel;

    open spec fn view(&self) -> ReferenceModel {
        ReferenceModel { identifier: self.identifier@, references: self.references@ }
    }
}

impl Clone for IdentifierReference {
    fn clone(&self) -> (r: IdentifierReference)
        ensures
            r@ == self@,
    {
        let mut references: Vec<SourceRange> = Vec::new();
        for i in 0..self.references.len()
            invariant
                references@ =~= self.references@.subrange(0, i as int),
        {
            references.push(self.references[i]);
        }
        proof {
            assert(references@ =~= self.references@);
        }
        IdentifierReference { identifier: self.identifier.clone(), references }
    }
}

impl PartialEq for IdentifierReference {
    fn eq(&self, other: &IdentifierReference) -> (r: bool) {
        if !(self.identifier == other.identifier) {
            return false;
        }
        if self.references.len() != other.references.len() {
            return false;
        }
        let n = self.references.len();
        let mut i: usize = 0;
        while i < n
            invariant
                n == self.references@.len(),
                self.references@.len() == other.references@.len(),
                i <= n,
                forall|j: int| 0 <= j < i ==> self.references@[j] == other.references@[j],
            decreases n - i,
        {
            if self.references[i] != other.references[i] {
                assert(self.references@[i as int] != other.references@[i as int]);
                return false;
            }
            i += 1;
        }
        proof {
            assert(self.references@ =~= other.references@);
        }
        true
    }
}

impl vstd::std_specs::cmp::PartialEqSpecImpl for IdentifierReference {
    open spec fn obeys_eq_spec() -> bool {
        true
    }

    open spec fn eq_spec(&self, other: &IdentifierReference) -> bool {
        self@.identifier == other@.identifier && self@.references == other@.references
    }
}

/// The mathematical values of a list of edges, in order.
pub open spec fn references_model(refs: Seq<IdentifierReference>) -> Seq<ReferenceModel> {
    refs.map_values(|r: IdentifierReference| r@)
}

} // verus!
