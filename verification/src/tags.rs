//! Discovery of tagged declarations.
//!
//! A declaration is tagged when one of its annotations is the two-segment
//! marker path `turbo_tasks::function`. The extractor returns the bare
//! identifier tokens inside the marker's argument list, in source order —
//! an empty list when the marker has no argument list — and honours only
//! the first matching annotation.

use vstd::prelude::*;
use crate::tree::{Annotation, Declaration, MetaToken};

verus! {

/// The marker's namespace segment.
pub open spec fn spec_marker_namespace() -> Seq<char> {
    "turbo_tasks"@
}

/// The marker's leaf segment.
pub open spec fn spec_marker_leaf() -> Seq<char> {
    "function"@
}

/// An annotation matches the marker exactly when its path is the marker's
/// two segments, both exact and case-sensitive.
pub open spec fn spec_is_marker(a: Annotation) -> bool {
    a.segments@.len() == 2 && a.segments@[0]@ == spec_marker_namespace() && a.segments@[1]@
        == spec_marker_leaf()
}

/// The bare identifier tokens of an argument list, in order.
pub open spec fn spec_ident_tokens(tokens: Seq<MetaToken>) -> Seq<Seq<char>>
    decreases tokens.len(),
{
    if tokens.len() == 0 {
        Seq::empty()
    } else {
        (match tokens[0] {
            MetaToken::Ident(s) => seq![s@],
            MetaToken::Other => Seq::empty(),
        }) + spec_ident_tokens(tokens.drop_first())
    }
}

/// The tags an annotation carries: the identifier tokens of its argument
/// list, or none at all when it has no argument list.
pub open spec fn spec_tags_of(a: Annotation) -> Seq<Seq<char>> {
    match a.args {
        Option::None => Seq::empty(),
        Option::Some(tokens) => spec_ident_tokens(tokens@),
    }
}

/// First-match-wins extraction over a declaration's annotations.
pub open spec fn spec_extract(attrs: Seq<Annotation>) -> Option<Seq<Seq<char>>>
    decreases attrs.len(),
{
    if attrs.len() == 0 {
        None
    } else if spec_is_marker(attrs[0]) {
        Some(spec_tags_of(attrs[0]))
    } else {
        spec_extract(attrs.drop_first())
    }
}

fn is_marker(a: &Annotation) -> (r: bool)
    ensures
        r == spec_is_marker(*a),
{
    if a.segments.len() != 2 {
        return false;
    }
    let ns: String = "turbo_tasks".to_owned();
    let leaf: String = "function".to_owned();
    a.segments[0] == ns && a.segments[1] == leaf
}

fn ident_tokens(tokens: &Vec<MetaToken>) -> (r: Vec<String>)
    ensures
        r.deep_view() == spec_ident_tokens(tokens@),
{
    let mut out: Vec<String> = Vec::new();
    let n = tokens.len();
    let mut i: usize = 0;
    proof {
        assert(tokens@.subrange(0, n as int) =~= tokens@);
        assert(out.deep_view() =~= Seq::<Seq<char>>::empty());
        assert(Seq::<Seq<char>>::empty() + spec_ident_tokens(tokens@) =~= spec_ident_tokens(
            tokens@,
        ));
    }
    while i < n
        invariant
            i <= n,
            n == tokens@.len(),
            spec_ident_tokens(tokens@) == out.deep_view() + spec_ident_tokens(
                tokens@.subrange(i as int, n as int),
            ),
        decreases n - i,
    {
        proof {
            assert(tokens@.subrange(i as int, n as int).drop_first() =~= tokens@.subrange(
                i as int + 1,
                n as int,
            ));
            assert(tokens@.subrange(i as int, n as int)[0] == tokens@[i as int]);
        }
        let ghost pre = out.deep_view();
        match &tokens[i] {
            MetaToken::Ident(s) => {
                out.push(s.clone());
                proof {
                    assert(out.deep_view() =~= pre + seq![tokens@[i as int]->Ident_0@]);
                    assert(pre + (seq![tokens@[i as int]->Ident_0@] + spec_ident_tokens(
                        tokens@.subrange(i as int + 1, n as int),
                    )) =~= out.deep_view() + spec_ident_tokens(
                        tokens@.subrange(i as int + 1, n as int),
                    ));
                }
            },
            MetaToken::Other => {
                proof {
                    assert(pre + (Seq::<Seq<char>>::empty() + spec_ident_tokens(
                        tokens@.subrange(i as int + 1, n as int),
                    )) =~= pre + spec_ident_tokens(tokens@.subrange(i as int + 1, n as int)));
                }
            },
        }
        i += 1;
    }
    proof {
        assert(tokens@.subrange(n as int, n as int) =~= Seq::<MetaToken>::empty());
        assert(out.deep_view() + Seq::<Seq<char>>::empty() =~= out.deep_view());
    }
    out
}

/// Scan a declaration's annotations for the marker: `Some` of its tags —
/// empty when the marker carries no argument list — from the first
/// matching annotation only, or `None` when no annotation matches.
pub fn extract_tags(attrs: &Vec<Annotation>) -> (r: Option<Vec<String>>)
    ensures
        match r {
            Some(tags) => spec_extract(attrs@) == Some(tags.deep_view()),
            None => spec_extract(attrs@) is None,
        },
{
    let n = attrs.len();
    let mut i: usize = 0;
    proof {
        assert(attrs@.subrange(0, n as int) =~= attrs@);
    }
    while i < n
        invariant
            i <= n,
            n == attrs@.len(),
            spec_extract(attrs@) == spec_extract(attrs@.subrange(i as int, n as int)),
        decreases n - i,
    {
        proof {
            assert(attrs@.subrange(i as int, n as int).drop_first() =~= attrs@.subrange(
                i as int + 1,
                n as int,
            ));
            assert(attrs@.subrange(i as int, n as int)[0] == attrs@[i as int]);
        }
        if is_marker(&attrs[i]) {
            let tags: Vec<String> = match &attrs[i].args {
                Option::None => Vec::new(),
                Option::Some(tokens) => ident_tokens(tokens),
            };
            proof {
                if attrs@[i as int].args is None {
                    assert(tags.deep_view() =~= spec_tags_of(attrs@[i as int]));
                }
            }
            return Some(tags);
        }
        i += 1;
    }
    proof {
        assert(attrs@.subrange(n as int, n as int) =~= Seq::<Annotation>::empty());
    }
    None
}

/// The scan that seeds resolution: it walks declarations and collects each
/// tagged one as a pair of its name and its tags.
pub struct TaskVisitor {
    /// The results: pairs of a declaration name and its tags.
    pub results: Vec<(String, Vec<String>)>,
}

impl TaskVisitor {
    pub fn new() -> (v: TaskVisitor)
        ensures
            v.results@ == Seq::<(String, Vec<String>)>::empty(),
    {
        TaskVisitor { results: Vec::new() }
    }

    /// Record the declaration when it is tagged; pass otherwise.
    pub fn visit_declaration(&mut self, d: &Declaration)
        ensures
            spec_extract(d.annotations@) is Some ==> ({
                let tags = spec_extract(d.annotations@).unwrap();
                let n0 = old(self).results@.len() as int;
                &&& final(self).results@.len() == n0 + 1
                &&& final(self).results@.subrange(0, n0) == old(self).results@
                &&& final(self).results@.last().0.view() == d.name@
                &&& final(self).results@.last().1.deep_view() == tags
            }),
            spec_extract(d.annotations@) is None ==> final(self).results@ == old(self).results@,
    {
        match extract_tags(&d.annotations) {
            Some(tags) => {
                self.results.push((d.name.clone(), tags));
                proof {
                    assert(self.results@.subrange(0, self.results@.len() - 1) =~= old(
                        self,
                    ).results@);
                }
            },
            None => {},
        }
    }
}

} // verus!
