use routefinder::Router;

#[test]
fn root_pattern_matches_root_path() {
    let mut router = Router::new();
    router.add("/", ()).unwrap();
    assert!(router.best_match("/").is_some());
}

#[test]
fn wildcard_param_and_literal_counts() {
    let mut router = Router::new();
    router.add("*", ()).unwrap();
    router.add("/:param", ()).unwrap();
    router.add("/hello", ()).unwrap();
    assert!(router.matches("/").len() > 0);
    assert_eq!(router.matches("/").len(), 1);
    assert_eq!(router.matches("/hello").len(), 3);
    assert_eq!(router.matches("/hey").len(), 2);
    assert_eq!(router.matches("/hey/there").len(), 1);
}

#[test]
fn param_capture() {
    let mut router = Router::new();
    router.add("/users/:id", ()).unwrap();
    let m = router.best_match("/users/42").unwrap();
    let caps = m.captures();
    assert_eq!(caps.params.len(), 1);
    assert_eq!(caps.params[0].0, "id");
    assert_eq!(caps.params[0].1, "42");
    assert!(caps.wildcard.is_none());
}

#[test]
fn wildcard_capture_spans_components() {
    let mut router = Router::new();
    router.add("/files/*", ()).unwrap();
    let m = router.best_match("/files/a/b/c.txt").unwrap();
    let caps = m.captures();
    assert!(caps.params.is_empty());
    assert_eq!(caps.wildcard.as_deref(), Some("a/b/c.txt"));
}

#[test]
fn wildcard_needs_a_component_to_consume() {
    let mut router = Router::new();
    router.add("/files/*", ()).unwrap();
    assert!(router.best_match("/files").is_none());
    // One trailing separator is normalised away, so this is "/files" too.
    assert!(router.best_match("/files/").is_none());
    // A second separator leaves an empty component for the wildcard.
    let m = router.best_match("/files//").unwrap();
    assert_eq!(m.captures().wildcard.as_deref(), Some(""));
}

#[test]
fn bare_wildcard_captures_root_as_empty() {
    let mut router = Router::new();
    router.add("*", ()).unwrap();
    let m = router.best_match("/").unwrap();
    assert_eq!(m.captures().wildcard.as_deref(), Some(""));
}

#[test]
fn precedence_literal_over_param_over_wildcard() {
    let mut router = Router::new();
    router.add("*", 0i64).unwrap();
    router.add("/:param", 1i64).unwrap();
    router.add("/hello", 2i64).unwrap();
    assert_eq!(*router.best_match("/hello").unwrap().handler(), 2);
    assert_eq!(*router.best_match("/hey").unwrap().handler(), 1);
    assert_eq!(*router.best_match("/hey/there").unwrap().handler(), 0);
}

#[test]
fn best_agrees_with_matches_maximum() {
    let mut router = Router::new();
    router.add("*", 0i64).unwrap();
    router.add("/:param", 1i64).unwrap();
    router.add("/hello", 2i64).unwrap();
    for path in ["/", "/hello", "/hey", "/hey/there", "/a/b/c"] {
        let all = router.matches(path);
        let best = router.best_match(path);
        assert_eq!(all.len() > 0, best.is_some());
        if let Some(b) = best {
            let max = all.best().unwrap();
            assert_eq!(*b.handler(), *max.handler());
        } else {
            assert!(all.best().is_none());
        }
    }
}

#[test]
fn duplicate_pattern_collapses_and_first_handler_wins() {
    let mut router = Router::new();
    router.add("/dup", 1i64).unwrap();
    router.add("/dup", 2i64).unwrap();
    assert_eq!(router.matches("/dup").len(), 1);
    assert_eq!(*router.best_match("/dup").unwrap().handler(), 1);
}

#[test]
fn duplicate_pattern_detected_after_parsing() {
    // "/dup" and "dup/" normalise to the same parsed pattern.
    let mut router = Router::new();
    router.add("/dup", 1i64).unwrap();
    router.add("dup/", 2i64).unwrap();
    assert_eq!(router.matches("/dup").len(), 1);
    assert_eq!(*router.best_match("/dup").unwrap().handler(), 1);
}

#[test]
fn capture_extraction_is_idempotent() {
    let mut router = Router::new();
    router.add("/users/:id/files/*", ()).unwrap();
    let m = router.best_match("/users/7/files/a/b").unwrap();
    let first = m.captures();
    let second = m.captures();
    assert_eq!(first, second);
}

#[test]
fn repeated_query_yields_equal_matches() {
    let mut router = Router::new();
    router.add("/a/:x", 1i64).unwrap();
    router.add("/a/b", 2i64).unwrap();
    let first = router.matches("/a/b");
    let second = router.matches("/a/b");
    assert_eq!(first.len(), second.len());
    assert_eq!(
        *first.best().unwrap().handler(),
        *second.best().unwrap().handler()
    );
}

#[test]
fn default_router_is_empty() {
    let router: Router<i64> = Router::default();
    assert!(router.best_match("/").is_none());
    assert_eq!(router.matches("/").len(), 0);
}

#[test]
fn empty_router_matches_nothing() {
    let router: Router<()> = Router::new();
    assert!(router.best_match("/anything").is_none());
    assert_eq!(router.matches("/anything").len(), 0);
    assert!(router.matches("/anything").best().is_none());
}

#[test]
fn param_does_not_match_empty_component() {
    let mut router = Router::new();
    router.add("/:p", ()).unwrap();
    assert!(router.best_match("/").is_none());
    assert!(router.best_match("/x").is_some());
}

#[test]
fn trailing_and_leading_separators_are_normalised() {
    let mut router = Router::new();
    router.add("hello", ()).unwrap();
    assert!(router.best_match("/hello").is_some());
    assert!(router.best_match("/hello/").is_some());
    assert!(router.best_match("/hello/there").is_none());
}

#[test]
fn into_route_returns_the_matched_route() {
    let mut router = Router::new();
    router.add("/a", 5i64).unwrap();
    let m = router.best_match("/a").unwrap();
    let route = m.into_route();
    assert_eq!(*route.handler(), 5);
}

#[test]
fn repeated_param_name_keeps_every_occurrence_in_order() {
    let mut router = Router::new();
    router.add("/:x/:x", ()).unwrap();
    let m = router.best_match("/one/two").unwrap();
    let caps = m.captures();
    assert_eq!(caps.params.len(), 2);
    assert_eq!(caps.params[0].1, "one");
    assert_eq!(caps.params[1].1, "two");
}

#[test]
fn get_looks_a_capture_up_by_name() {
    let mut router = Router::new();
    router.add("/users/:id", ()).unwrap();
    let m = router.best_match("/users/42").unwrap();
    let caps = m.captures();
    assert_eq!(caps.get("id").map(|s| s.as_str()), Some("42"));
    assert!(caps.get("other").is_none());
}

#[test]
fn repeated_param_name_last_write_visible_in_lookup() {
    let mut router = Router::new();
    router.add("/:x/:x", ()).unwrap();
    let m = router.best_match("/one/two").unwrap();
    let caps = m.captures();
    assert_eq!(caps.get("x").map(|s| s.as_str()), Some("two"));
}

#[test]
fn multiple_params_capture_in_pattern_order() {
    let mut router = Router::new();
    router.add("/posts/:post_id/comments/:comment_id", ()).unwrap();
    let m = router.best_match("/posts/12/comments/34").unwrap();
    let caps = m.captures();
    assert_eq!(caps.params.len(), 2);
    assert_eq!(caps.params[0].0, "post_id");
    assert_eq!(caps.params[0].1, "12");
    assert_eq!(caps.params[1].0, "comment_id");
    assert_eq!(caps.params[1].1, "34");
}

#[test]
fn literal_text_breaks_ties_between_literals() {
    let mut router = Router::new();
    router.add("/a/*", 1i64).unwrap();
    router.add("/b/*", 2i64).unwrap();
    assert_eq!(*router.best_match("/a/x").unwrap().handler(), 1);
    assert_eq!(*router.best_match("/b/x").unwrap().handler(), 2);
}

#[test]
fn deeper_pattern_outranks_its_prefix_rival() {
    let mut router = Router::new();
    router.add("/a/*", 1i64).unwrap();
    router.add("/:p/x", 2i64).unwrap();
    // Both match "/a/x"; the literal first segment decides.
    assert_eq!(router.matches("/a/x").len(), 2);
    assert_eq!(*router.best_match("/a/x").unwrap().handler(), 1);
}
