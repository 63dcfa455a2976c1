//! The calling-style classifier.
//!
//! For one resolved edge — a caller known to contain call sites reaching
//! some target — the classifier walks the caller's declarations, keeps a
//! strict stack of enclosing-context markers, and, at every call
//! expression standing at one of the edge's call sites, folds the stack
//! into one [`CallingStyle`]. A declaration matches the edge's caller by
//! name alone, not by source range. Each matched call site yields its own
//! classification, in traversal order; `result` joins them, and yields
//! nothing when no call site was found, classification being undefined
//! then rather than defaulted.

use vstd::prelude::*;
use crate::model::{IdentifierReference, SourceRange};
use crate::style::CallingStyle;
use crate::tree::{Declaration, Node};

verus! {

/// A context marker, pushed on entry to a construct and popped on exit.
#[derive(Debug, Clone, Copy, PartialEq, Eq, Structural)]
pub enum CallingStyleVisitorState {
    /// The matched declaration's own body.
    Block,
    /// An indefinite or iteration loop.
    Loop,
    /// A conditional branch.
    If,
    /// A closure body.
    Closure,
}

impl CallingStyleVisitorState {
    /// The base multiplicity a construct contributes: entering the body
    /// runs it once; a loop body runs zero or more times; a conditional
    /// branch runs zero times or once; a closure body may be called any
    /// number of times.
    pub open spec fn spec_style(self) -> CallingStyle {
        match self {
            CallingStyleVisitorState::Block => CallingStyle::Once,
            CallingStyleVisitorState::Loop => CallingStyle::ZeroOrMore,
            CallingStyleVisitorState::If => CallingStyle::ZeroOrOnce,
            CallingStyleVisitorState::Closure => CallingStyle::ZeroOrMore,
        }
    }

    pub fn style(self) -> (r: CallingStyle)
        ensures
            r == self.spec_style(),
    {
        match self {
            CallingStyleVisitorState::Block => CallingStyle::Once,
            CallingStyleVisitorState::Loop => CallingStyle::ZeroOrMore,
            CallingStyleVisitorState::If => CallingStyle::ZeroOrOnce,
            CallingStyleVisitorState::Closure => CallingStyle::ZeroOrMore,
        }
    }
}

/// The left fold, with the join, of a stack of markers; nothing for an
/// empty stack.
pub open spec fn spec_stack_style(stack: Seq<CallingStyleVisitorState>) -> Option<CallingStyle>
    decreases stack.len(),
{
    if stack.len() == 0 {
        None
    } else if stack.len() == 1 {
        Some(stack[0].spec_style())
    } else {
        match spec_stack_style(stack.drop_last()) {
            Some(acc) => Some(acc.spec_join(stack.last().spec_style())),
            None => None,
        }
    }
}

/// The left fold, with the join, of already-folded per-site styles.
pub open spec fn spec_reduce_styles(styles: Seq<CallingStyle>) -> Option<CallingStyle>
    decreases styles.len(),
{
    if styles.len() == 0 {
        None
    } else if styles.len() == 1 {
        Some(styles[0])
    } else {
        match spec_reduce_styles(styles.drop_last()) {
            Some(acc) => Some(acc.spec_join(styles.last())),
            None => None,
        }
    }
}

/// The classifications one node contributes: one per call expression in it
/// that stands at one of the edge's call sites, each the fold of the
/// marker stack on the path to that site.
pub open spec fn spec_node_styles(
    n: Node,
    sites: Seq<SourceRange>,
    stack: Seq<CallingStyleVisitorState>,
) -> Seq<CallingStyle>
    decreases n,
{
    match n {
        Node::Loop { body } => spec_nodes_styles(
            body@,
            sites,
            stack.push(CallingStyleVisitorState::Loop),
        ),
        Node::ForLoop { body } => spec_nodes_styles(
            body@,
            sites,
            stack.push(CallingStyleVisitorState::Loop),
        ),
        Node::If { then_branch, else_branch } => spec_nodes_styles(
            then_branch@,
            sites,
            stack.push(CallingStyleVisitorState::If),
        ) + spec_nodes_styles(else_branch@, sites, stack.push(CallingStyleVisitorState::If)),
        Node::Closure { body } => spec_nodes_styles(
            body@,
            sites,
            stack.push(CallingStyleVisitorState::Closure),
        ),
        Node::Call { range } => if sites.contains(range) {
            match spec_stack_style(stack) {
                Some(st) => seq![st],
                None => Seq::empty(),
            }
        } else {
            Seq::empty()
        },
    }
}

pub open spec fn spec_nodes_styles(
    nodes: Seq<Node>,
    sites: Seq<SourceRange>,
    stack: Seq<CallingStyleVisitorState>,
) -> Seq<CallingStyle>
    decreases nodes,
{
    if nodes.len() == 0 {
        Seq::empty()
    } else {
        spec_node_styles(nodes[0], sites, stack) + spec_nodes_styles(
            nodes.drop_first(),
            sites,
            stack,
        )
    }
}

/// What one declaration contributes: its body walked under a fresh
/// `Block` marker when its name matches the caller's, nothing otherwise.
pub open spec fn spec_declaration_styles(
    d: Declaration,
    caller: Seq<char>,
    sites: Seq<SourceRange>,
) -> Seq<CallingStyle> {
    if d.name@ == caller {
        spec_nodes_styles(d.body@, sites, seq![CallingStyleVisitorState::Block])
    } else {
        Seq::empty()
    }
}

/// The traversal that determines the calling style of the target within
/// the edge's caller.
pub struct CallingStyleVisitor {
    pub reference: IdentifierReference,
    pub state: Vec<CallingStyleVisitorState>,
    pub styles: Vec<CallingStyle>,
}

impl CallingStyleVisitor {
    /// The marker stack: one entry per enclosing construct, deepest last.
    pub open spec fn stack(self) -> Seq<CallingStyleVisitorState> {
        self.state@
    }

    /// The classifications collected so far, one per matched call site,
    /// in traversal order.
    pub open spec fn collected(self) -> Seq<CallingStyle> {
        self.styles@
    }

    /// A visitor for the given edge, with an empty stack and nothing
    /// collected.
    pub fn new(reference: IdentifierReference) -> (v: CallingStyleVisitor)
        ensures
            v.reference == reference,
            v.stack() == Seq::<CallingStyleVisitorState>::empty(),
            v.collected() == Seq::<CallingStyle>::empty(),
    {
        CallingStyleVisitor { reference, state: Vec::new(), styles: Vec::new() }
    }

    fn site_matches(&self, range: SourceRange) -> (r: bool)
        ensures
            r == self.reference.references@.contains(range),
    {
        let n = self.reference.references.len();
        let mut i: usize = 0;
        while i < n
            invariant
                i <= n,
                n == self.reference.references@.len(),
                forall|j: int| 0 <= j < i ==> self.reference.references@[j] != range,
            decreases n - i,
        {
            if self.reference.references[i] == range {
                proof {
                    assert(self.reference.references@[i as int] == range);
                }
                return true;
            }
            i += 1;
        }
        false
    }

    fn stack_style(&self) -> (r: Option<CallingStyle>)
        ensures
            r == spec_stack_style(self.stack()),
    {
        let n = self.state.len();
        if n == 0 {
            return None;
        }
        let mut acc = self.state[0].style();
        let mut i: usize = 1;
        proof {
            assert(self.state@.subrange(0, 1) =~= seq![self.state@[0]]);
        }
        while i < n
            invariant
                1 <= i <= n,
                n == self.state@.len(),
                Some(acc) == spec_stack_style(self.state@.subrange(0, i as int)),
            decreases n - i,
        {
            acc = acc.join(self.state[i].style());
            proof {
                assert(self.state@.subrange(0, i as int + 1).drop_last() =~= self.state@.subrange(
                    0,
                    i as int,
                ));
                assert(self.state@.subrange(0, i as int + 1).last() == self.state@[i as int]);
            }
            i += 1;
        }
        proof {
            assert(self.state@.subrange(0, n as int) =~= self.state@);
        }
        Some(acc)
    }

    fn visit_node(&mut self, n: &Node)
        ensures
            final(self).reference == old(self).reference,
            final(self).stack() == old(self).stack(),
            final(self).collected() == old(self).collected() + spec_node_styles(
                *n,
                old(self).reference.references@,
                old(self).stack(),
            ),
        decreases *n, 0int,
    {
        match n {
            Node::Loop { body } => {
                self.enter_nodes(body, CallingStyleVisitorState::Loop);
            },
            Node::ForLoop { body } => {
                self.enter_nodes(body, CallingStyleVisitorState::Loop);
            },
            Node::If { then_branch, else_branch } => {
                self.state.push(CallingStyleVisitorState::If);
                self.visit_nodes(then_branch);
                self.visit_nodes(else_branch);
                self.state.pop();
                proof {
                    assert(old(self).stack().push(
                        CallingStyleVisitorState::If,
                    ).drop_last() =~= old(self).stack());
                    assert(old(self).collected() + (spec_nodes_styles(
                        then_branch@,
                        old(self).reference.references@,
                        old(self).stack().push(CallingStyleVisitorState::If),
                    ) + spec_nodes_styles(
                        else_branch@,
                        old(self).reference.references@,
                        old(self).stack().push(CallingStyleVisitorState::If),
                    )) =~= self.collected());
                }
            },
            Node::Closure { body } => {
                self.enter_nodes(body, CallingStyleVisitorState::Closure);
            },
            Node::Call { range } => {
                if self.site_matches(*range) {
                    match self.stack_style() {
                        Some(st) => {
                            self.styles.push(st);
                            proof {
                                assert(self.collected() =~= old(self).collected() + seq![st]);
                            }
                        },
                        None => {
                            proof {
                                assert(old(self).collected() + Seq::<CallingStyle>::empty()
                                    =~= old(self).collected());
                            }
                        },
                    }
                } else {
                    proof {
                        assert(old(self).collected() + Seq::<CallingStyle>::empty() =~= old(
                            self,
                        ).collected());
                    }
                }
            },
        }
    }

    /// Push the marker, walk the nodes, pop the marker.
    fn enter_nodes(&mut self, nodes: &Vec<Node>, marker: CallingStyleVisitorState)
        ensures
            final(self).reference == old(self).reference,
            final(self).stack() == old(self).stack(),
            final(self).collected() == old(self).collected() + spec_nodes_styles(
                nodes@,
                old(self).reference.references@,
                old(self).stack().push(marker),
            ),
        decreases *nodes, 1int,
    {
        self.state.push(marker);
        self.visit_nodes(nodes);
        self.state.pop();
        proof {
            assert(old(self).stack().push(marker).drop_last() =~= old(self).stack());
        }
    }

    fn visit_nodes(&mut self, nodes: &Vec<Node>)
        ensures
            final(self).reference == old(self).reference,
            final(self).stack() == old(self).stack(),
            final(self).collected() == old(self).collected() + spec_nodes_styles(
                nodes@,
                old(self).reference.references@,
                old(self).stack(),
            ),
        decreases *nodes, 0int,
    {
        let n = nodes.len();
        let mut i: usize = 0;
        proof {
            assert(nodes@.subrange(0, n as int) =~= nodes@);
        }
        while i < n
            invariant
                i <= n,
                n == nodes@.len(),
                self.reference == old(self).reference,
                self.stack() == old(self).stack(),
                self.collected() + spec_nodes_styles(
                    nodes@.subrange(i as int, n as int),
                    old(self).reference.references@,
                    old(self).stack(),
                ) == old(self).collected() + spec_nodes_styles(
                    nodes@,
                    old(self).reference.references@,
                    old(self).stack(),
                ),
            decreases n - i,
        {
            proof {
                assert(nodes@.subrange(i as int, n as int).drop_first() =~= nodes@.subrange(
                    i as int + 1,
                    n as int,
                ));
                assert(nodes@.subrange(i as int, n as int)[0] == nodes@[i as int]);
            }
            let ghost pre = self.collected();
            self.visit_node(&nodes[i]);
            proof {
                let sites = old(self).reference.references@;
                let st = old(self).stack();
                assert((pre + spec_node_styles(nodes@[i as int], sites, st))
                    + spec_nodes_styles(nodes@.subrange(i as int + 1, n as int), sites, st) =~= pre
                    + (spec_node_styles(nodes@[i as int], sites, st) + spec_nodes_styles(
                    nodes@.subrange(i as int + 1, n as int),
                    sites,
                    st,
                )));
            }
            i += 1;
        }
        proof {
            assert(nodes@.subrange(n as int, n as int) =~= Seq::<Node>::empty());
            assert(self.collected() + Seq::<CallingStyle>::empty() =~= self.collected());
        }
    }

    /// Walk one declaration: when its name matches the edge's caller, its
    /// body is entered under a fresh `Block` marker and every matched call
    /// site in it contributes a classification.
    pub fn visit_declaration(&mut self, d: &Declaration)
        requires
            old(self).stack() == Seq::<CallingStyleVisitorState>::empty(),
        ensures
            final(self).reference == old(self).reference,
            final(self).stack() == old(self).stack(),
            final(self).collected() == old(self).collected() + spec_declaration_styles(
                *d,
                old(self).reference.identifier@.name,
                old(self).reference.references@,
            ),
    {
        if self.reference.identifier.same_name(&d.name) {
            proof {
                assert(old(self).stack().push(CallingStyleVisitorState::Block)
                    =~= seq![CallingStyleVisitorState::Block]);
            }
            self.enter_nodes(&d.body, CallingStyleVisitorState::Block);
        } else {
            proof {
                assert(self.collected() + Seq::<CallingStyle>::empty() =~= self.collected());
            }
        }
    }

    /// The classification of the edge: the join of every matched call
    /// site's style, or nothing when the target was never reached during
    /// the walk.
    pub fn result(self) -> (r: Option<CallingStyle>)
        ensures
            r == spec_reduce_styles(self.collected()),
    {
        let n = self.styles.len();
        if n == 0 {
            return None;
        }
        let mut acc = self.styles[0];
        let mut i: usize = 1;
        proof {
            assert(self.styles@.subrange(0, 1) =~= seq![self.styles@[0]]);
        }
        while i < n
            invariant
                1 <= i <= n,
                n == self.styles@.len(),
                Some(acc) == spec_reduce_styles(self.styles@.subrange(0, i as int)),
            decreases n - i,
        {
            acc = acc.join(self.styles[i]);
            proof {
                assert(self.styles@.subrange(0, i as int + 1).drop_last() =~= self.styles@.subrange(
                    0,
                    i as int,
                ));
                assert(self.styles@.subrange(0, i as int + 1).last() == self.styles@[i as int]);
            }
            i += 1;
        }
        proof {
            assert(self.styles@.subrange(0, n as int) =~= self.styles@);
        }
        Some(acc)
    }
}

} // verus!
