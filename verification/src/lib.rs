//! A path-pattern matching engine: the matching core of an HTTP-style
//! router. Patterns mix literal components, named `:param` components and a
//! trailing `*` wildcard; a router holds a set of patterns sorted by a total
//! precedence order and answers queries with every matching pattern or with
//! the single best one.

mod errors;
mod matches;
mod model;
mod order;
mod route;
mod router;
mod routespec;
mod segment;
mod strings;

pub use errors::ParseError;
pub use matches::{
    lemma_captures_deterministic, lemma_matches_deterministic, match_models, matched_models,
    opt_view, pairs_view, route_models, spec_get, strictly_sorted, Captures, Match, Matches,
};
pub use model::{path_components, spec_match, spec_pairs, spec_parse, spec_wildcard, SegModel};
pub use order::{
    lemma_precedence_transitive, lemma_precedence_trichotomy, seg_lt, spec_lt, text_lt,
};
pub use route::Route;
pub use router::{lemma_best_is_max, Router};
pub use routespec::RouteSpec;
pub use segment::Segment;
