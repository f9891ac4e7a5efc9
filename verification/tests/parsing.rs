use routefinder::{ParseError, Route, RouteSpec, Router};

#[test]
fn named_wildcard_is_rejected_bare_wildcard_accepted() {
    let mut router = Router::new();
    assert!(router.add("*named_wildcard", ()).is_err());
    assert!(router.add("*", ()).is_ok());
}

#[test]
fn named_wildcard_error_variant() {
    let mut router = Router::new();
    assert_eq!(router.add("/files/*tail", ()), Err(ParseError::NamedWildcard));
    // Registration is atomic: the failed pattern left the router unchanged.
    assert!(router.best_match("/files/x").is_none());
}

#[test]
fn empty_param_name_error_variant() {
    let mut router = Router::new();
    assert_eq!(router.add("/users/:", ()), Err(ParseError::EmptyParamName));
    assert_eq!(router.add(":", ()), Err(ParseError::EmptyParamName));
}

#[test]
fn wildcard_not_last_error_variant() {
    let mut router = Router::new();
    assert_eq!(router.add("/*/x", ()), Err(ParseError::WildcardNotLast));
    assert_eq!(router.add("*/*", ()), Err(ParseError::WildcardNotLast));
}

#[test]
fn first_error_in_left_to_right_scan_wins() {
    let mut router = Router::new();
    assert_eq!(router.add("/:/*rest", ()), Err(ParseError::EmptyParamName));
    assert_eq!(router.add("/*rest/:", ()), Err(ParseError::NamedWildcard));
}

#[test]
fn route_spec_parses_directly() {
    assert!(RouteSpec::parse("/a/:b/*").is_ok());
    assert!(RouteSpec::parse("/").is_ok());
    assert_eq!(RouteSpec::parse("*x").unwrap_err(), ParseError::NamedWildcard);
}

#[test]
fn route_pairs_pattern_with_handler() {
    let route = Route::new("/ping", 7i64).unwrap();
    assert_eq!(*route.handler(), 7);
    assert!(Route::new("/:", 7i64).is_err());
}

#[test]
fn colon_inside_component_is_a_param_only_at_the_front() {
    // A component that does not start with the sigil is a literal.
    let mut router = Router::new();
    router.add("/a:b", ()).unwrap();
    assert!(router.best_match("/a:b").is_some());
    assert!(router.best_match("/ab").is_none());
}

#[test]
fn star_inside_component_is_a_named_wildcard_error_only_at_the_front() {
    let mut router = Router::new();
    router.add("/a*b", ()).unwrap();
    assert!(router.best_match("/a*b").is_some());
    assert_eq!(router.add("/*b", ()), Err(ParseError::NamedWildcard));
}

#[test]
fn dynamic_pattern_strings_work() {
    let mut router = Router::new();
    let pattern = format!("/dynamic/{}", "route");
    assert!(router.add(pattern.as_str(), ()).is_ok());
    assert!(router.best_match("/dynamic/route").is_some());
}
