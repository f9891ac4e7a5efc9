//! A validated pattern: the ordered segment sequence a raw pattern string
//! parses into, together with the comparison that realises the precedence
//! order on patterns.

use vstd::prelude::*;

use crate::errors::ParseError;
use crate::model::{
    lemma_skip_one, parse_component, parse_components, path_components, spec_parse, wildcard_last,
    SegModel,
};
use crate::order::{lemma_precedence_trichotomy, seg_lt, spec_lt};
use crate::segment::Segment;
use crate::strings::{split_path, str_lt};

verus! {

/// A parsed, validated pattern: a non-empty sequence of segments in the
/// left-to-right order of the original pattern string. Immutable once
/// constructed; the only constructor is [`RouteSpec::parse`].
#[derive(Debug)]
pub struct RouteSpec {
    segments: Vec<Segment>,
}

impl View for RouteSpec {
    type V = Seq<SegModel>;

    closed spec fn view(&self) -> Seq<SegModel> {
        self.segments.deep_view()
    }
}

impl RouteSpec {
    /// A well-formed pattern keeps its wildcard, if any, as the final
    /// segment; `parse` guarantees it.
    pub open spec fn wf(&self) -> bool {
        wildcard_last(self@)
    }

    /// Parse a raw pattern string. Returns the parsed pattern exactly when
    /// the grammar accepts it, and the first error in a left-to-right scan
    /// of the components otherwise; see [`spec_parse`].
    pub fn parse(pattern: &str) -> (r: Result<RouteSpec, ParseError>)
        ensures
            match spec_parse(pattern@) {
                Ok(m) => r is Ok && r->Ok_0@ == m && r->Ok_0.wf() && r->Ok_0@.len() > 0,
                Err(e) => r is Err && r->Err_0 == e,
            },
    {
        let comps = split_path(pattern);
        let ghost cdv = comps.deep_view();
        let mut segs: Vec<Segment> = Vec::new();
        let mut k: usize = 0;
        proof {
            assert(cdv.skip(0) =~= cdv);
            assert(Seq::<SegModel>::empty() + parse_components(cdv)->Ok_0 =~= parse_components(
                cdv,
            )->Ok_0);
        }
        while k < comps.len()
            invariant
                k <= comps.len(),
                cdv == comps.deep_view(),
                cdv.len() == comps.len(),
                cdv == path_components(pattern@),
                segs.deep_view().len() == k,
                match parse_components(cdv.skip(k as int)) {
                    Ok(rest) => parse_components(cdv) == Ok::<_, ParseError>(
                        segs.deep_view() + rest,
                    ),
                    Err(e) => parse_components(cdv) == Err::<Seq<SegModel>, _>(e),
                },
            decreases comps.len() - k,
        {
            proof {
                lemma_skip_one(cdv, k as int);
            }
            let c = comps[k].as_str();
            let n = c.unicode_len();
            let seg: Segment = if n > 0 && c.get_char(0) == ':' {
                if n > 1 {
                    let name = String::from_str(c.substring_char(1, n));
                    proof {
                        assert(c@.subrange(1, n as int) =~= c@.skip(1));
                    }
                    Segment::Param(name)
                } else {
                    proof {
                        assert(parse_components(cdv) == Err::<Seq<SegModel>, _>(
                            ParseError::EmptyParamName,
                        ));
                    }
                    return Err(ParseError::EmptyParamName);
                }
            } else if n > 0 && c.get_char(0) == '*' {
                if n == 1 {
                    Segment::Wildcard
                } else {
                    return Err(ParseError::NamedWildcard);
                }
            } else {
                Segment::Exact(comps[k].clone())
            };
            proof {
                assert(parse_component(cdv[k as int]) == Ok::<_, ParseError>(seg@));
            }
            let ghost old_dv = segs.deep_view();
            segs.push(seg);
            proof {
                assert(segs.deep_view() =~= old_dv.push(seg@));
                if parse_components(cdv.skip(k + 1)) is Ok {
                    let rest = parse_components(cdv.skip(k + 1))->Ok_0;
                    assert(old_dv + (seq![seg@] + rest) =~= segs.deep_view() + rest);
                }
            }
            k = k + 1;
        }
        proof {
            assert(cdv.skip(cdv.len() as int) =~= Seq::<Seq<char>>::empty());
            assert(segs.deep_view() + Seq::<SegModel>::empty() =~= segs.deep_view());
        }
        let m = segs.len();
        let mut j: usize = 0;
        while j < m
            invariant
                j <= m,
                m == segs.deep_view().len(),
                parse_components(path_components(pattern@)) == Ok::<_, ParseError>(
                    segs.deep_view(),
                ),
                forall|x: int|
                    0 <= x < j ==> x == m - 1 || !(#[trigger] segs.deep_view()[x] is Wildcard),
            decreases m - j,
        {
            let is_wild = matches!(&segs[j], Segment::Wildcard);
            if is_wild && j + 1 < m {
                proof {
                    assert(segs.deep_view()[j as int] is Wildcard);
                    assert(!wildcard_last(segs.deep_view()));
                }
                return Err(ParseError::WildcardNotLast);
            }
            j = j + 1;
        }
        proof {
            assert(wildcard_last(segs.deep_view()));
        }
        Ok(RouteSpec { segments: segs })
    }

    /// The parsed segments, in pattern order.
    pub fn segments(&self) -> (s: &Vec<Segment>)
        ensures
            s.deep_view() == self@,
    {
        &self.segments
    }

    /// Strict precedence comparison: true when `self` ranks strictly below
    /// `other`; see [`spec_lt`].
    pub fn lt(&self, other: &RouteSpec) -> (r: bool)
        ensures
            r == spec_lt(self@, other@),
    {
        let a = &self.segments;
        let b = &other.segments;
        let mut i: usize = 0;
        proof {
            assert(a.deep_view().skip(0) =~= a.deep_view());
            assert(b.deep_view().skip(0) =~= b.deep_view());
        }
        while i < a.len() && i < b.len()
            invariant
                i <= a.len(),
                i <= b.len(),
                a.deep_view().len() == a.len(),
                b.deep_view().len() == b.len(),
                a.deep_view() == self@,
                b.deep_view() == other@,
                spec_lt(self@, other@) == spec_lt(
                    a.deep_view().skip(i as int),
                    b.deep_view().skip(i as int),
                ),
            decreases a.len() - i,
        {
            proof {
                lemma_skip_one(a.deep_view(), i as int);
                lemma_skip_one(b.deep_view(), i as int);
            }
            if seg_eq(&a[i], &b[i]) {
                i = i + 1;
            } else {
                return seg_lt_exec(&a[i], &b[i]);
            }
        }
        proof {
            assert(a.deep_view().skip(i as int).len() == a.len() - i);
            assert(b.deep_view().skip(i as int).len() == b.len() - i);
        }
        i < b.len()
    }

    /// Structural equality of two parsed patterns.
    pub fn same(&self, other: &RouteSpec) -> (r: bool)
        ensures
            r == (self@ == other@),
    {
        let ab = self.lt(other);
        let ba = other.lt(self);
        proof {
            lemma_precedence_trichotomy(self@, other@);
        }
        !ab && !ba
    }
}

/// Structural equality of two segments.
fn seg_eq(a: &Segment, b: &Segment) -> (r: bool)
    ensures
        r == (a@ == b@),
{
    match (a, b) {
        (Segment::Exact(x), Segment::Exact(y)) => *x == *y,
        (Segment::Param(x), Segment::Param(y)) => *x == *y,
        (Segment::Wildcard, Segment::Wildcard) => true,
        _ => false,
    }
}

/// Strict precedence comparison of two segments; see [`seg_lt`].
fn seg_lt_exec(a: &Segment, b: &Segment) -> (r: bool)
    ensures
        r == seg_lt(a@, b@),
{
    match (a, b) {
        (Segment::Exact(x), Segment::Exact(y)) => str_lt(x.as_str(), y.as_str()),
        (Segment::Param(x), Segment::Param(y)) => str_lt(x.as_str(), y.as_str()),
        (Segment::Wildcard, Segment::Wildcard) => false,
        (Segment::Wildcard, _) => true,
        (Segment::Param(_), Segment::Exact(_)) => true,
        _ => false,
    }
}

} // verus!
