//! A registered route: a parsed pattern paired with an opaque handler
//! payload, carrying the matching walk that tests it against a path.

use vstd::prelude::*;

use crate::errors::ParseError;
use crate::matches::Match;
use crate::model::{
    join_slash, lemma_skip_one, path_components, spec_match, spec_parse, wildcard_last, SegModel,
};
use crate::order::spec_lt;
use crate::routespec::RouteSpec;
use crate::segment::Segment;
use crate::strings::{join_from, split_path};

verus! {

/// A pattern together with its handler payload. Equality and precedence
/// are defined over the pattern alone: the handler is never inspected or
/// compared, which is why a route's view is just its pattern model.
#[derive(Debug)]
pub struct Route<T> {
    pattern: RouteSpec,
    handler: T,
}

impl<T> View for Route<T> {
    type V = Seq<SegModel>;

    closed spec fn view(&self) -> Seq<SegModel> {
        self.pattern@
    }
}

impl<T> Route<T> {
    /// Every route built by [`Route::new`] keeps its wildcard, if any, as
    /// the final segment.
    pub open spec fn wf(&self) -> bool {
        wildcard_last(self@)
    }

    /// The handler payload, as a specification-level value.
    pub closed spec fn spec_handler(&self) -> T {
        self.handler
    }

    /// Parse `pattern` and pair it with `handler`; fails exactly when the
    /// pattern grammar rejects the string, per [`spec_parse`].
    pub fn new(pattern: &str, handler: T) -> (r: Result<Route<T>, ParseError>)
        ensures
            match spec_parse(pattern@) {
                Ok(m) => r is Ok && r->Ok_0@ == m && r->Ok_0.wf() && r->Ok_0.spec_handler()
                    == handler,
                Err(e) => r is Err && r->Err_0 == e,
            },
    {
        match RouteSpec::parse(pattern) {
            Ok(p) => Ok(Route { pattern: p, handler }),
            Err(e) => Err(e),
        }
    }

    /// The handler payload.
    pub fn handler(&self) -> (h: &T)
        ensures
            *h == self.spec_handler(),
    {
        &self.handler
    }

    /// The segments of the route's pattern, in pattern order.
    pub fn segments(&self) -> (s: &Vec<Segment>)
        ensures
            s.deep_view() == self@,
    {
        self.pattern.segments()
    }

    /// Strict precedence comparison over the patterns alone.
    pub(crate) fn lt(&self, other: &Route<T>) -> (r: bool)
        ensures
            r == spec_lt(self@, other@),
    {
        self.pattern.lt(&other.pattern)
    }

    /// Structural equality of the patterns alone; the handlers play no part.
    pub(crate) fn same_spec(&self, other: &Route<T>) -> (r: bool)
        ensures
            r == (self@ == other@),
    {
        self.pattern.same(&other.pattern)
    }

    /// Test this route against a path. Returns a [`Match`] exactly when
    /// the pattern structurally matches the path's components, per
    /// [`spec_match`]; a non-matching path is a normal negative result,
    /// never an error.
    pub fn is_match<'a, 'p>(&'a self, path: &'p str) -> (m: Option<Match<'a, 'p, T>>)
        requires
            self.wf(),
        ensures
            match spec_match(self@, path_components(path@)) {
                Some(caps) => m is Some && m->0.spec_route() == *self && m->0.spec_path() == path@
                    && m->0.spec_raw() == caps && m->0.wf(),
                None => m is None,
            },
    {
        let comps = split_path(path);
        let ghost cdv = comps.deep_view();
        let segs = self.segments();
        let ghost sdv = segs.deep_view();
        let n = segs.len();
        let mut caps: Vec<String> = Vec::new();
        let mut i: usize = 0;
        proof {
            assert(sdv.skip(0) =~= sdv);
            assert(cdv.skip(0) =~= cdv);
            if spec_match(sdv, cdv) is Some {
                assert(Seq::<Seq<char>>::empty() + spec_match(sdv, cdv)->0 =~= spec_match(
                    sdv,
                    cdv,
                )->0);
            }
        }
        while i < n
            invariant
                i <= n,
                i <= comps.len(),
                n == sdv.len(),
                n == segs@.len(),
                sdv == segs.deep_view(),
                sdv == self@,
                self.wf(),
                cdv == comps.deep_view(),
                cdv == path_components(path@),
                comps.len() == cdv.len(),
                match spec_match(sdv.skip(i as int), cdv.skip(i as int)) {
                    Some(rest) => spec_match(sdv, cdv) == Some(caps.deep_view() + rest),
                    None => spec_match(sdv, cdv) is None,
                },
            decreases n - i,
        {
            proof {
                lemma_skip_one(sdv, i as int);
                if i < cdv.len() {
                    lemma_skip_one(cdv, i as int);
                }
                assert(cdv.skip(i as int).len() == cdv.len() - i);
            }
            match &segs[i] {
                Segment::Exact(t) => {
                    if i < comps.len() && *t == comps[i] {
                        i = i + 1;
                    } else {
                        return None;
                    }
                },
                Segment::Param(_) => {
                    if i < comps.len() && !comps[i].as_str().is_empty() {
                        let ghost old_dv = caps.deep_view();
                        caps.push(comps[i].clone());
                        proof {
                            assert(caps.deep_view() =~= old_dv.push(cdv[i as int]));
                            if spec_match(sdv.skip(i + 1), cdv.skip(i + 1)) is Some {
                                let rest = spec_match(sdv.skip(i + 1), cdv.skip(i + 1))->0;
                                assert(old_dv + (seq![cdv[i as int]] + rest) =~= caps.deep_view()
                                    + rest);
                            }
                        }
                        i = i + 1;
                    } else {
                        return None;
                    }
                },
                Segment::Wildcard => {
                    if i < comps.len() {
                        let tail = join_from(&comps, i);
                        let ghost old_dv = caps.deep_view();
                        caps.push(tail);
                        proof {
                            assert(caps.deep_view() =~= old_dv.push(join_slash(cdv.skip(i as int))));
                            assert(old_dv + seq![join_slash(cdv.skip(i as int))] =~= caps.deep_view());
                        }
                        return Some(Match::new(path, self, caps));
                    } else {
                        return None;
                    }
                },
            }
        }
        proof {
            assert(sdv.skip(n as int).len() == 0);
        }
        if i == comps.len() {
            proof {
                assert(cdv.skip(i as int).len() == 0);
                assert(caps.deep_view() + Seq::<Seq<char>>::empty() =~= caps.deep_view());
            }
            Some(Match::new(path, self, caps))
        } else {
            proof {
                assert(cdv.skip(i as int).len() > 0);
            }
            None
        }
    }
}

} // verus!
