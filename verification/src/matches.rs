//! Match results: the evidence that a route matches a path, the named
//! captures extracted from it, and the ordered collection of every match
//! for one query.

use vstd::prelude::*;

use crate::model::{
    lemma_skip_one, lemma_take_one, path_components, spec_match, spec_pairs, spec_wildcard,
    SegModel,
};
use crate::order::spec_lt;
use crate::route::Route;
use crate::segment::Segment;
use crate::strings::str_eq;

verus! {

/// The pattern models of a route sequence, in order.
pub open spec fn route_models<T>(rs: Seq<Route<T>>) -> Seq<Seq<SegModel>> {
    rs.map_values(|r: Route<T>| r@)
}

/// Strictly ascending by precedence: the order a router keeps its routes
/// in, which makes the last element the maximum.
pub open spec fn strictly_sorted(ms: Seq<Seq<SegModel>>) -> bool {
    forall|i: int, j: int| 0 <= i < j < ms.len() ==> spec_lt(#[trigger] ms[i], #[trigger] ms[j])
}

/// The subsequence of pattern models that match the given path
/// components, in their original order.
pub open spec fn matched_models(ms: Seq<Seq<SegModel>>, comps: Seq<Seq<char>>) -> Seq<
    Seq<SegModel>,
>
    decreases ms.len(),
{
    if ms.len() == 0 {
        Seq::empty()
    } else {
        let rest = matched_models(ms.drop_last(), comps);
        if spec_match(ms.last(), comps) is Some {
            rest.push(ms.last())
        } else {
            rest
        }
    }
}

/// The pattern models of a match sequence, in order.
pub open spec fn match_models<'r, 'p, T>(ms: Seq<Match<'r, 'p, T>>) -> Seq<Seq<SegModel>> {
    ms.map_values(|m: Match<'r, 'p, T>| m.spec_route()@)
}

/// The model of a list of named captures.
pub open spec fn pairs_view(ps: Seq<(String, String)>) -> Seq<(Seq<char>, Seq<char>)> {
    ps.map_values(|p: (String, String)| (p.0@, p.1@))
}

/// The model of an optional wildcard capture.
pub open spec fn opt_view(o: Option<String>) -> Option<Seq<char>> {
    match o {
        Some(s) => Some(s@),
        None => None,
    }
}

/// Looking a name up among the captured pairs: the value of the last
/// pair carrying the name, so a repeated parameter name has its later
/// capture visible and the earlier one shadowed.
pub open spec fn spec_get(ps: Seq<(Seq<char>, Seq<char>)>, name: Seq<char>) -> Option<Seq<char>>
    decreases ps.len(),
{
    if ps.len() == 0 {
        None
    } else if ps.last().0 == name {
        Some(ps.last().1)
    } else {
        spec_get(ps.drop_last(), name)
    }
}

/// The by-name captures of one successful match: one `(name, value)` pair
/// per `Param` segment in pattern order, plus the wildcard capture if the
/// pattern ends in one. A repeated parameter name keeps every occurrence,
/// in order.
#[derive(Debug, PartialEq, Eq)]
pub struct Captures {
    /// The `(name, value)` pairs, one per `Param` segment, in pattern order.
    pub params: Vec<(String, String)>,
    /// The text the trailing wildcard consumed, if the pattern has one.
    pub wildcard: Option<String>,
}

impl Captures {
    /// The value captured under `name`, if any: with a repeated parameter
    /// name, the last write is visible, per [`spec_get`].
    pub fn get(&self, name: &str) -> (r: Option<&String>)
        ensures
            match spec_get(pairs_view(self.params@), name@) {
                Some(v) => r is Some && r->0@ == v,
                None => r is None,
            },
    {
        let ghost pv = pairs_view(self.params@);
        let mut k: usize = self.params.len();
        proof {
            assert(pv.take(pv.len() as int) =~= pv);
        }
        while k > 0
            invariant
                k <= self.params.len(),
                pv == pairs_view(self.params@),
                pv.len() == self.params.len(),
                spec_get(pv, name@) == spec_get(pv.take(k as int), name@),
            decreases k,
        {
            k = k - 1;
            proof {
                lemma_take_one(pv, k as int);
            }
            if str_eq(self.params[k].0.as_str(), name) {
                return Some(&self.params[k].1);
            }
        }
        proof {
            assert(pv.take(0).len() == 0);
        }
        None
    }
}

/// One route shown to match one path: borrows the route from the router's
/// storage and records the raw captured substrings, positionally, one per
/// capturing segment. Extracting by-name captures from it is a pure,
/// repeatable read.
#[derive(Debug)]
pub struct Match<'router, 'path, T> {
    path: &'path str,
    route: &'router Route<T>,
    captures: Vec<String>,
}

impl<'router, 'path, T> Match<'router, 'path, T> {
    /// The matched route, as a specification-level value.
    pub closed spec fn spec_route(&self) -> Route<T> {
        *self.route
    }

    /// The queried path, as a specification-level value.
    pub closed spec fn spec_path(&self) -> Seq<char> {
        self.path@
    }

    /// The raw positional captures, as specification-level values.
    pub closed spec fn spec_raw(&self) -> Seq<Seq<char>> {
        self.captures.deep_view()
    }

    /// A match is evidence: its route is well formed and its raw captures
    /// are exactly what matching the route against the path produces.
    pub open spec fn wf(&self) -> bool {
        &&& self.spec_route().wf()
        &&& spec_match(self.spec_route()@, path_components(self.spec_path())) == Some(
            self.spec_raw(),
        )
    }

    pub(crate) fn new(
        path: &'path str,
        route: &'router Route<T>,
        captures: Vec<String>,
    ) -> (m: Self)
        requires
            route.wf(),
            spec_match(route@, path_components(path@)) == Some(captures.deep_view()),
        ensures
            m.spec_route() == *route,
            m.spec_path() == path@,
            m.spec_raw() == captures.deep_view(),
            m.wf(),
    {
        Self { path, route, captures }
    }

    /// The handler of the matched route.
    pub fn handler(&self) -> (h: &'router T)
        ensures
            *h == self.spec_route().spec_handler(),
    {
        self.route.handler()
    }

    /// Give up the match, keeping only the matched route.
    pub fn into_route(self) -> (r: &'router Route<T>)
        ensures
            *r == self.spec_route(),
    {
        self.route
    }

    /// Resolve the raw positional captures to named captures, per
    /// [`spec_pairs`] and [`spec_wildcard`]. This is a read-only,
    /// deterministic function of the match: calling it any number of times
    /// yields the same result.
    pub fn captures(&self) -> (c: Captures)
        ensures
            pairs_view(c.params@) == spec_pairs(self.spec_route()@, self.spec_raw()),
            opt_view(c.wildcard) == spec_wildcard(self.spec_route()@, self.spec_raw()),
    {
        let segs = self.route.segments();
        let ghost sdv = segs.deep_view();
        let ghost raw = self.captures.deep_view();
        let n = segs.len();
        let mut params: Vec<(String, String)> = Vec::new();
        let mut wildcard: Option<String> = None;
        let mut i: usize = 0;
        let mut j: usize = 0;
        let mut done = false;
        proof {
            assert(sdv.skip(0) =~= sdv);
            assert(raw.skip(0) =~= raw);
            assert(pairs_view(params@) + spec_pairs(sdv, raw) =~= spec_pairs(sdv, raw));
        }
        while i < n && !done
            invariant
                i <= n,
                j <= self.captures.len(),
                n == sdv.len(),
                n == segs@.len(),
                sdv == segs.deep_view(),
                sdv == self.spec_route()@,
                raw == self.captures.deep_view(),
                self.captures.len() == raw.len(),
                done ==> pairs_view(params@) == spec_pairs(sdv, raw) && opt_view(wildcard)
                    == spec_wildcard(sdv, raw),
                !done ==> wildcard is None && pairs_view(params@) + spec_pairs(
                    sdv.skip(i as int),
                    raw.skip(j as int),
                ) == spec_pairs(sdv, raw) && spec_wildcard(sdv.skip(i as int), raw.skip(j as int))
                    == spec_wildcard(sdv, raw),
            decreases (if done { 0int } else { 1int }), n - i,
        {
            proof {
                lemma_skip_one(sdv, i as int);
                if j < raw.len() {
                    lemma_skip_one(raw, j as int);
                }
                assert(raw.skip(j as int).len() == raw.len() - j);
            }
            match &segs[i] {
                Segment::Exact(_) => {
                    i = i + 1;
                },
                Segment::Param(name) => {
                    if j < self.captures.len() {
                        let ghost old_pv = pairs_view(params@);
                        params.push((name.clone(), self.captures[j].clone()));
                        proof {
                            let nm = name@;
                            assert(pairs_view(params@) =~= old_pv.push((nm, raw[j as int])));
                            assert(old_pv + (seq![(nm, raw[j as int])] + spec_pairs(
                                sdv.skip(i + 1),
                                raw.skip(j + 1),
                            )) =~= pairs_view(params@) + spec_pairs(
                                sdv.skip(i + 1),
                                raw.skip(j + 1),
                            ));
                        }
                        j = j + 1;
                    }
                    i = i + 1;
                },
                Segment::Wildcard => {
                    if j < self.captures.len() {
                        wildcard = Some(self.captures[j].clone());
                    }
                    proof {
                        assert(pairs_view(params@) + Seq::<(Seq<char>, Seq<char>)>::empty()
                            =~= pairs_view(params@));
                    }
                    done = true;
                },
            }
        }
        proof {
            if !done {
                assert(sdv.skip(i as int).len() == 0);
                assert(pairs_view(params@) + Seq::<(Seq<char>, Seq<char>)>::empty() =~= pairs_view(
                    params@,
                ));
            }
        }
        Captures { params, wildcard }
    }
}

/// Capture extraction is idempotent: the captures of a match are a pure
/// function of the match, so any two extractions from the same match — in
/// particular two calls of [`Match::captures`], whose contract pins its
/// result to exactly these values — denote identical captures.
pub proof fn lemma_captures_deterministic<'r, 'p, T>(
    m: Match<'r, 'p, T>,
    p1: Seq<(Seq<char>, Seq<char>)>,
    w1: Option<Seq<char>>,
    p2: Seq<(Seq<char>, Seq<char>)>,
    w2: Option<Seq<char>>,
)
    requires
        p1 == spec_pairs(m.spec_route()@, m.spec_raw()),
        w1 == spec_wildcard(m.spec_route()@, m.spec_raw()),
        p2 == spec_pairs(m.spec_route()@, m.spec_raw()),
        w2 == spec_wildcard(m.spec_route()@, m.spec_raw()),
    ensures
        p1 == p2,
        w1 == w2,
{
}

/// Querying is deterministic: the matched patterns for one route
/// collection and one path are a pure function of the two, so any two
/// query results over the same routes and path — in particular two calls
/// of `Router::matches`, whose contract pins the collection to exactly
/// this model — hold the same patterns in the same order.
pub proof fn lemma_matches_deterministic<'r, 'p, T>(
    a: Seq<Match<'r, 'p, T>>,
    b: Seq<Match<'r, 'p, T>>,
    rs: Seq<Route<T>>,
    path: Seq<char>,
)
    requires
        match_models(a) == matched_models(route_models(rs), path_components(path)),
        match_models(b) == matched_models(route_models(rs), path_components(path)),
    ensures
        match_models(a) == match_models(b),
{
}

/// Every match for one query, in ascending precedence order; the best
/// match is the maximum, that is, the last.
#[derive(Debug)]
pub struct Matches<'router, 'path, T> {
    matches: Vec<Match<'router, 'path, T>>,
}

impl<'router, 'path, T> Matches<'router, 'path, T> {
    /// The collected matches, as specification-level values.
    pub closed spec fn spec_matches(&self) -> Seq<Match<'router, 'path, T>> {
        self.matches@
    }

    /// How many routes matched.
    pub fn len(&self) -> (r: usize)
        ensures
            r == self.spec_matches().len(),
    {
        self.matches.len()
    }

    /// The highest-precedence match, if any matched: the maximum of the
    /// collection, which sits last in ascending order.
    pub fn best(&self) -> (r: Option<&Match<'router, 'path, T>>)
        ensures
            self.spec_matches().len() == 0 ==> r is None,
            self.spec_matches().len() > 0 ==> r is Some && *r->0 == self.spec_matches().last(),
    {
        if self.matches.len() == 0 {
            None
        } else {
            Some(&self.matches[self.matches.len() - 1])
        }
    }

    /// Test every route in `routes` against `path` and collect the
    /// matches, keeping the routes' ascending precedence order. The routes
    /// must be strictly sorted by precedence, as a router keeps them.
    pub fn for_routes_and_path(routes: &'router [Route<T>], path: &'path str) -> (r: Self)
        requires
            forall|k: int| 0 <= k < routes@.len() ==> (#[trigger] routes@[k]).wf(),
            strictly_sorted(route_models(routes@)),
        ensures
            match_models(r.spec_matches()) == matched_models(
                route_models(routes@),
                path_components(path@),
            ),
            forall|i: int|
                0 <= i < r.spec_matches().len() ==> {
                    let m = #[trigger] r.spec_matches()[i];
                    &&& m.wf()
                    &&& m.spec_path() == path@
                    &&& exists|k: int|
                        0 <= k < routes@.len() && m.spec_route() == routes@[k]
                },
    {
        let ghost models = route_models(routes@);
        let ghost comps = path_components(path@);
        let mut v: Vec<Match<'router, 'path, T>> = Vec::new();
        let mut k: usize = 0;
        proof {
            assert(models.take(0) =~= Seq::<Seq<SegModel>>::empty());
            assert(match_models(v@) =~= matched_models(models.take(0), comps));
        }
        while k < routes.len()
            invariant
                k <= routes.len(),
                models == route_models(routes@),
                models.len() == routes@.len(),
                comps == path_components(path@),
                forall|x: int| 0 <= x < routes@.len() ==> (#[trigger] routes@[x]).wf(),
                match_models(v@) == matched_models(models.take(k as int), comps),
                forall|i: int|
                    0 <= i < v@.len() ==> {
                        let m = #[trigger] v@[i];
                        &&& m.wf()
                        &&& m.spec_path() == path@
                        &&& exists|x: int| 0 <= x < routes@.len() && m.spec_route() == routes@[x]
                    },
            decreases routes.len() - k,
        {
            proof {
                lemma_take_one(models, k as int);
                assert(models[k as int] == routes@[k as int]@);
            }
            let found = routes[k].is_match(path);
            match found {
                Some(m) => {
                    let ghost old_mm = match_models(v@);
                    v.push(m);
                    proof {
                        assert(match_models(v@) =~= old_mm.push(m.spec_route()@));
                        assert(m.spec_route() == routes@[k as int]);
                    }
                },
                None => {},
            }
            k = k + 1;
        }
        proof {
            assert(models.take(routes@.len() as int) =~= models);
        }
        Matches { matches: v }
    }
}

} // verus!
