//! The router: an ordered set of routes, with registration and the two
//! query operations.

use vstd::prelude::*;

use crate::errors::ParseError;
use crate::matches::{match_models, matched_models, route_models, strictly_sorted, Match, Matches};
use crate::model::{path_components, spec_match, spec_parse, SegModel};
use crate::order::{lemma_precedence_transitive, lemma_precedence_trichotomy, spec_lt};
use crate::route::Route;

verus! {

/// An ordered set of routes, each carrying a handler payload `T`. The
/// routes are kept strictly sorted in ascending precedence order and are
/// deduplicated by their pattern alone: registering a pattern that parses
/// to an already-registered one leaves the router unchanged, so the
/// earlier handler stays — re-registering a pattern does not replace its
/// handler.
pub struct Router<T> {
    routes: Vec<Route<T>>,
}

impl<T> Router<T> {
    /// The registered routes, in ascending precedence order, as
    /// specification-level values.
    pub closed spec fn spec_routes(&self) -> Seq<Route<T>> {
        self.routes@
    }

    /// Every registered route is well formed and the collection is
    /// strictly sorted by precedence; established at construction and
    /// preserved by every registration.
    pub open spec fn wf(&self) -> bool {
        &&& forall|k: int|
            0 <= k < self.spec_routes().len() ==> (#[trigger] self.spec_routes()[k]).wf()
        &&& strictly_sorted(route_models(self.spec_routes()))
    }

    /// Builds a new, empty router.
    pub fn new() -> (r: Self)
        ensures
            r.wf(),
            r.spec_routes().len() == 0,
    {
        Router { routes: Vec::new() }
    }

    /// Parse `pattern` and register it with `handler`. Fails, leaving the
    /// router unchanged, exactly when the pattern grammar rejects the
    /// string. A pattern equal (after parsing) to one already registered
    /// also leaves the router unchanged: the route set collapses
    /// duplicates and the first handler wins.
    pub fn add(&mut self, pattern: &str, handler: T) -> (r: Result<(), ParseError>)
        requires
            old(self).wf(),
        ensures
            final(self).wf(),
            match spec_parse(pattern@) {
                Err(e) => r is Err && r->Err_0 == e && final(self).spec_routes() == old(
                    self,
                ).spec_routes(),
                Ok(m) => r is Ok && if exists|k: int|
                    0 <= k < old(self).spec_routes().len() && (#[trigger] old(
                        self,
                    ).spec_routes()[k])@ == m {
                    final(self).spec_routes() == old(self).spec_routes()
                } else {
                    exists|i: int|
                        {
                            &&& 0 <= i <= old(self).spec_routes().len()
                            &&& final(self).spec_routes() == old(self).spec_routes().insert(
                                i,
                                final(self).spec_routes()[i],
                            )
                            &&& (#[trigger] final(self).spec_routes()[i])@ == m
                            &&& final(self).spec_routes()[i].spec_handler() == handler
                        }
                },
            },
    {
        let route = match Route::new(pattern, handler) {
            Ok(rt) => rt,
            Err(e) => {
                return Err(e);
            },
        };
        let ghost m = route@;
        let ghost olds = self.routes@;
        let ghost models = route_models(olds);
        let mut i: usize = 0;
        while i < self.routes.len() && self.routes[i].lt(&route)
            invariant
                i <= self.routes.len(),
                self.routes@ == olds,
                models == route_models(olds),
                models.len() == olds.len(),
                route@ == m,
                forall|j: int| 0 <= j < i ==> spec_lt(#[trigger] models[j], m),
            decreases self.routes.len() - i,
        {
            i = i + 1;
        }
        if i < self.routes.len() && self.routes[i].same_spec(&route) {
            proof {
                assert(olds[i as int]@ == m);
            }
            return Ok(());
        }
        proof {
            // No registered pattern equals the new one.
            assert forall|kk: int| 0 <= kk < olds.len() implies (#[trigger] olds[kk])@ != m by {
                if kk < i {
                    lemma_precedence_trichotomy(models[kk], m);
                } else if kk == i {
                } else {
                    lemma_precedence_trichotomy(m, models[i as int]);
                    lemma_precedence_transitive(m, models[i as int], models[kk]);
                    lemma_precedence_trichotomy(m, models[kk]);
                }
            }
            // Every route from the found position on ranks above the new one.
            assert forall|kk: int| i <= kk < olds.len() implies spec_lt(m, #[trigger] models[kk]) by {
                lemma_precedence_trichotomy(m, models[i as int]);
                if kk > i {
                    lemma_precedence_transitive(m, models[i as int], models[kk]);
                }
            }
        }
        self.routes.insert(i, route);
        proof {
            olds.insert_ensures(i as int, route);
            assert(self.routes@ == olds.insert(i as int, route));
            assert(self.routes@[i as int] == route);
            let news = route_models(self.routes@);
            assert(news =~= models.insert(i as int, m)) by {
                models.insert_ensures(i as int, m);
            }
            models.insert_ensures(i as int, m);
            assert forall|x: int, y: int| 0 <= x < y < news.len() implies spec_lt(
                #[trigger] news[x],
                #[trigger] news[y],
            ) by {
                if y < i {
                } else if x < i && y == i {
                } else if x < i && y > i {
                } else if x == i {
                } else {
                }
            }
        }
        Ok(())
    }

    /// Every matching route for `path`, in ascending precedence order;
    /// an empty collection is a normal, non-erroneous outcome.
    pub fn matches<'a, 'b>(&'a self, path: &'b str) -> (r: Matches<'a, 'b, T>)
        requires
            self.wf(),
        ensures
            match_models(r.spec_matches()) == matched_models(
                route_models(self.spec_routes()),
                path_components(path@),
            ),
            forall|i: int|
                0 <= i < r.spec_matches().len() ==> {
                    let m = #[trigger] r.spec_matches()[i];
                    &&& m.wf()
                    &&& m.spec_path() == path@
                    &&& exists|k: int|
                        0 <= k < self.spec_routes().len() && m.spec_route()
                            == self.spec_routes()[k]
                },
    {
        Matches::for_routes_and_path(self.routes.as_slice(), path)
    }

    /// The single best match for `path`: scan the routes from highest to
    /// lowest precedence and return the first structural match. Returns
    /// `Some` exactly when some registered route matches, and then the
    /// returned route outranks every other matching route — correct
    /// because precedence is total and independent of the queried path.
    pub fn best_match<'a, 'b>(&'a self, path: &'b str) -> (r: Option<Match<'a, 'b, T>>)
        requires
            self.wf(),
        ensures
            r is None <==> (forall|k: int|
                0 <= k < self.spec_routes().len() ==> spec_match(
                    (#[trigger] self.spec_routes()[k])@,
                    path_components(path@),
                ) is None),
            r is Some ==> {
                let m = r->0;
                &&& m.wf()
                &&& m.spec_path() == path@
                &&& exists|k: int|
                    0 <= k < self.spec_routes().len() && m.spec_route() == self.spec_routes()[k]
                &&& forall|k: int|
                    0 <= k < self.spec_routes().len() && spec_match(
                        (#[trigger] self.spec_routes()[k])@,
                        path_components(path@),
                    ) is Some ==> self.spec_routes()[k]@ == m.spec_route()@ || spec_lt(
                        self.spec_routes()[k]@,
                        m.spec_route()@,
                    )
            },
            r is None <==> matched_models(
                route_models(self.spec_routes()),
                path_components(path@),
            ).len() == 0,
            r is Some ==> r->0.spec_route()@ == matched_models(
                route_models(self.spec_routes()),
                path_components(path@),
            ).last(),
    {
        let ghost comps = path_components(path@);
        let mut k: usize = self.routes.len();
        while k > 0
            invariant
                k <= self.routes.len(),
                self.wf(),
                comps == path_components(path@),
                forall|j: int|
                    k <= j < self.spec_routes().len() ==> spec_match(
                        (#[trigger] self.spec_routes()[j])@,
                        comps,
                    ) is None,
            decreases k,
        {
            k = k - 1;
            let found = self.routes[k].is_match(path);
            match found {
                Some(m) => {
                    proof {
                        assert forall|j: int|
                            0 <= j < self.spec_routes().len() && spec_match(
                                (#[trigger] self.spec_routes()[j])@,
                                comps,
                            ) is Some implies self.spec_routes()[j]@ == m.spec_route()@ || spec_lt(
                            self.spec_routes()[j]@,
                            m.spec_route()@,
                        ) by {
                            if j < k {
                                assert(spec_lt(
                                    route_models(self.spec_routes())[j],
                                    route_models(self.spec_routes())[k as int],
                                ));
                            }
                        }
                    }
                    proof {
                        let models = route_models(self.spec_routes());
                        assert(forall|j: int|
                            0 <= j < models.len() ==> models[j] == (#[trigger] self.spec_routes()[j])@);
                        lemma_best_is_max(models, comps);
                        let mm = m.spec_route()@;
                        let best = matched_models(models, comps).last();
                        if mm != best {
                            lemma_precedence_trichotomy(mm, best);
                        }
                    }
                    return Some(m);
                },
                None => {},
            }
        }
        proof {
            let models = route_models(self.spec_routes());
            assert(forall|j: int|
                0 <= j < models.len() ==> models[j] == (#[trigger] self.spec_routes()[j])@);
            lemma_best_is_max(models, comps);
        }
        None
    }
}

impl<T> Default for Router<T> {
    /// The default router is the empty one.
    fn default() -> (r: Self)
        ensures
            r.wf(),
            r.spec_routes().len() == 0,
    {
        Router { routes: Vec::new() }
    }
}

/// The law connecting the two queries: over any strictly sorted route
/// collection, a best match exists exactly when the set of all matches is
/// non-empty, and the best match is that set's maximum element — the last
/// in ascending order, which every other matching pattern ranks below.
pub proof fn lemma_best_is_max(ms: Seq<Seq<SegModel>>, comps: Seq<Seq<char>>)
    requires
        strictly_sorted(ms),
    ensures
        (exists|k: int| 0 <= k < ms.len() && spec_match(#[trigger] ms[k], comps) is Some)
            <==> matched_models(ms, comps).len() > 0,
        matched_models(ms, comps).len() > 0 ==> {
            let best = matched_models(ms, comps).last();
            &&& spec_match(best, comps) is Some
            &&& exists|k: int| 0 <= k < ms.len() && ms[k] == best
            &&& forall|k: int|
                0 <= k < ms.len() && spec_match(#[trigger] ms[k], comps) is Some ==> ms[k] == best
                    || spec_lt(ms[k], best)
        },
    decreases ms.len(),
{
    if ms.len() == 0 {
    } else {
        let prefix = ms.drop_last();
        assert(strictly_sorted(prefix)) by {
            assert(forall|i: int| 0 <= i < prefix.len() ==> prefix[i] == ms[i]);
        }
        lemma_best_is_max(prefix, comps);
        assert(forall|i: int| 0 <= i < prefix.len() ==> prefix[i] == ms[i]);
        if spec_match(ms.last(), comps) is Some {
            let best = matched_models(ms, comps).last();
            assert(best == ms.last());
            assert forall|k: int|
                0 <= k < ms.len() && spec_match(#[trigger] ms[k], comps) is Some implies ms[k]
                == best || spec_lt(ms[k], best) by {
                if k < ms.len() - 1 {
                    assert(spec_lt(ms[k], ms[ms.len() - 1]));
                }
            }
        } else {
            assert(matched_models(ms, comps) == matched_models(prefix, comps));
            if matched_models(prefix, comps).len() > 0 {
                let best = matched_models(prefix, comps).last();
                assert forall|k: int|
                    0 <= k < ms.len() && spec_match(#[trigger] ms[k], comps) is Some implies ms[k]
                    == best || spec_lt(ms[k], best) by {
                    assert(k < ms.len() - 1);
                }
            }
        }
    }
}

} // verus!
