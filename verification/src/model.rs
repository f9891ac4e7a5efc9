//! The mathematical model of patterns, parsing, and matching.
//!
//! Everything here is specification-level: sequences of characters stand for
//! strings, and a pattern is a sequence of [`SegModel`] values. The
//! executable types in the rest of the crate carry views into this model,
//! and their contracts are stated over the functions defined here.

use vstd::prelude::*;

use crate::errors::ParseError;

verus! {

/// Model of one pattern segment: a literal component, a named parameter
/// capturing one non-empty component, or the trailing wildcard capturing
/// the whole remainder of the path.
pub enum SegModel {
    Exact(Seq<char>),
    Param(Seq<char>),
    Wildcard,
}

/// Normalisation applied to both pattern strings and queried paths before
/// splitting: one leading and one trailing separator are ignored, so that
/// `/hello`, `hello` and `/hello/` all denote the same component list.
pub open spec fn strip_slashes(s: Seq<char>) -> Seq<char> {
    let a = if s.len() > 0 && s[0] == '/' {
        s.skip(1)
    } else {
        s
    };
    if a.len() > 0 && a.last() == '/' {
        a.drop_last()
    } else {
        a
    }
}

/// Split a (normalised) string into its `/`-separated components. The
/// result is never empty: the empty string has the single empty component,
/// which is how the root path `/` is represented.
pub open spec fn split_slash(s: Seq<char>) -> Seq<Seq<char>>
    decreases s.len(),
{
    if s.len() == 0 {
        seq![Seq::<char>::empty()]
    } else {
        let rest = split_slash(s.drop_last());
        if s.last() == '/' {
            rest.push(Seq::<char>::empty())
        } else {
            rest.update(rest.len() - 1, rest.last().push(s.last()))
        }
    }
}

/// Joining with `/` is the inverse of splitting; the wildcard capture is
/// the join of every component it consumed.
pub open spec fn join_slash(cs: Seq<Seq<char>>) -> Seq<char>
    decreases cs.len(),
{
    if cs.len() == 0 {
        Seq::empty()
    } else if cs.len() == 1 {
        cs[0]
    } else {
        join_slash(cs.drop_last()) + seq!['/'] + cs.last()
    }
}

/// The component list a path is matched by: normalise, then split.
pub open spec fn path_components(p: Seq<char>) -> Seq<Seq<char>> {
    split_slash(strip_slashes(p))
}

/// Parse one component of a pattern: `:name` is a parameter (the name must
/// be non-empty), a bare `*` is the wildcard, `*` followed by anything is
/// the named-wildcard error, and everything else is a literal.
pub open spec fn parse_component(c: Seq<char>) -> Result<SegModel, ParseError> {
    if c.len() > 0 && c[0] == ':' {
        if c.len() > 1 {
            Ok(SegModel::Param(c.skip(1)))
        } else {
            Err(ParseError::EmptyParamName)
        }
    } else if c.len() > 0 && c[0] == '*' {
        if c.len() == 1 {
            Ok(SegModel::Wildcard)
        } else {
            Err(ParseError::NamedWildcard)
        }
    } else {
        Ok(SegModel::Exact(c))
    }
}

/// Parse every component left to right; the first failing component
/// determines the reported error.
pub open spec fn parse_components(cs: Seq<Seq<char>>) -> Result<Seq<SegModel>, ParseError>
    decreases cs.len(),
{
    if cs.len() == 0 {
        Ok(Seq::empty())
    } else {
        match parse_component(cs[0]) {
            Ok(seg) => match parse_components(cs.skip(1)) {
                Ok(rest) => Ok(seq![seg] + rest),
                Err(e) => Err(e),
            },
            Err(e) => Err(e),
        }
    }
}

/// A wildcard may only stand as the final segment of a pattern.
pub open spec fn wildcard_last(segs: Seq<SegModel>) -> bool {
    forall|i: int| 0 <= i < segs.len() - 1 ==> !(#[trigger] segs[i] is Wildcard)
}

/// The full pattern grammar: normalise, split, parse each component, then
/// reject any wildcard that is not the trailing segment.
pub open spec fn spec_parse(p: Seq<char>) -> Result<Seq<SegModel>, ParseError> {
    match parse_components(path_components(p)) {
        Ok(segs) => if wildcard_last(segs) {
            Ok(segs)
        } else {
            Err(ParseError::WildcardNotLast)
        },
        Err(e) => Err(e),
    }
}

/// Test a pattern against the component list of a path, walking both in
/// lock-step. On success the result holds the raw captured substrings, one
/// per `Param` segment in pattern order, with the wildcard capture (the
/// join of every remaining component) last if the pattern ends in one.
///
/// An `Exact` segment requires an identical component; a `Param` consumes
/// exactly one non-empty component; the `Wildcard` consumes all remaining
/// components (at least one, possibly empty) and ends the walk. A pattern
/// with segments left over, or a path with components left over and no
/// wildcard to absorb them, does not match.
pub open spec fn spec_match(segs: Seq<SegModel>, comps: Seq<Seq<char>>) -> Option<Seq<Seq<char>>>
    decreases segs.len(),
{
    if segs.len() == 0 {
        if comps.len() == 0 {
            Some(Seq::empty())
        } else {
            None
        }
    } else {
        match segs[0] {
            SegModel::Wildcard => if comps.len() > 0 {
                Some(seq![join_slash(comps)])
            } else {
                None
            },
            SegModel::Exact(t) => if comps.len() > 0 && comps[0] == t {
                spec_match(segs.skip(1), comps.skip(1))
            } else {
                None
            },
            SegModel::Param(_) => if comps.len() > 0 && comps[0].len() > 0 {
                match spec_match(segs.skip(1), comps.skip(1)) {
                    Some(rest) => Some(seq![comps[0]] + rest),
                    None => None,
                }
            } else {
                None
            },
        }
    }
}

/// Stepping a cursor one element forward commutes with `skip`.
pub proof fn lemma_skip_one<A>(s: Seq<A>, i: int)
    requires
        0 <= i < s.len(),
    ensures
        s.skip(i).skip(1) == s.skip(i + 1),
        s.skip(i).len() == s.len() - i,
        s.skip(i)[0] == s[i],
{
    assert(s.skip(i).skip(1) =~= s.skip(i + 1));
}

/// Extending a processed prefix by one element commutes with `take`.
pub proof fn lemma_take_one<A>(s: Seq<A>, i: int)
    requires
        0 <= i < s.len(),
    ensures
        s.take(i + 1).drop_last() == s.take(i),
        s.take(i + 1).last() == s[i],
        s.take(i + 1).len() == i + 1,
{
    assert(s.take(i + 1).drop_last() =~= s.take(i));
}

/// The named captures of a successful match: zip the `Param` segments, in
/// pattern order, against the raw captured substrings. A repeated parameter
/// name yields one pair per occurrence, in order.
pub open spec fn spec_pairs(segs: Seq<SegModel>, raw: Seq<Seq<char>>) -> Seq<(Seq<char>, Seq<char>)>
    decreases segs.len(),
{
    if segs.len() == 0 || raw.len() == 0 {
        Seq::empty()
    } else {
        match segs[0] {
            SegModel::Exact(_) => spec_pairs(segs.skip(1), raw),
            SegModel::Param(n) => seq![(n, raw[0])] + spec_pairs(segs.skip(1), raw.skip(1)),
            SegModel::Wildcard => Seq::empty(),
        }
    }
}

/// The wildcard capture of a successful match, if the pattern has one.
pub open spec fn spec_wildcard(segs: Seq<SegModel>, raw: Seq<Seq<char>>) -> Option<Seq<char>>
    decreases segs.len(),
{
    if segs.len() == 0 || raw.len() == 0 {
        None
    } else {
        match segs[0] {
            SegModel::Exact(_) => spec_wildcard(segs.skip(1), raw),
            SegModel::Param(_) => spec_wildcard(segs.skip(1), raw.skip(1)),
            SegModel::Wildcard => Some(raw[0]),
        }
    }
}

} // verus!
