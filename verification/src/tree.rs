//! The already-parsed source-tree input the analysis consumes.
//!
//! Producing this representation from raw text is a language front-end's
//! job; the analysis only reads it. A declaration is a function-like item
//! — free function or method — with its attached annotations and the
//! nested structure of its body, kept only as far as classification needs
//! it: loops, conditionals, closures, and call expressions with their
//! source ranges.

use vstd::prelude::*;
use crate::model::SourceRange;

verus! {

/// One token inside an annotation's argument list.
pub enum MetaToken {
    /// A bare identifier token: a tag.
    Ident(String),
    /// Any other token: punctuation, a literal, a group.
    Other,
}

/// One annotation attached to a declaration: its path segments and, when
/// it is written with an argument list, the tokens inside it.
pub struct Annotation {
    pub segments: Vec<String>,
    /// `None` for a bare path annotation; `Some` (possibly empty) when the
    /// annotation carries an argument list.
    pub args: Option<Vec<MetaToken>>,
}

/// A node of a declaration body, kept only as far as classification reads
/// it.
pub enum Node {
    /// An indefinite loop.
    Loop { body: Vec<Node> },
    /// An iteration loop.
    ForLoop { body: Vec<Node> },
    /// A conditional: both branches, the second possibly empty.
    If { then_branch: Vec<Node>, else_branch: Vec<Node> },
    /// A closure body.
    Closure { body: Vec<Node> },
    /// A call expression, identified by its source range.
    Call { range: SourceRange },
}

/// A function-like declaration: free function or method.
pub struct Declaration {
    pub name: String,
    pub annotations: Vec<Annotation>,
    pub body: Vec<Node>,
}

} // verus!
