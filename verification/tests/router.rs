use http_core::method::Method;
use http_core::router::{path_segments, RouteNode, Router};

#[test]
fn literal_route_resolves_to_its_handler_without_parameters() {
    let mut router: Router<u32> = Router::new();
    router.add_route(Method::GET, "/users/list", 7);
    let (handler, params) = router.resolve(Method::GET, "/users/list");
    assert_eq!(handler, Some(&7));
    assert!(params.is_empty());
}

#[test]
fn every_registered_literal_route_keeps_its_own_handler() {
    let mut router: Router<u32> = Router::new();
    router.add_route(Method::GET, "/", 1);
    router.add_route(Method::GET, "/a", 2);
    router.add_route(Method::GET, "/a/b", 3);
    router.add_route(Method::POST, "/a/b", 4);
    router.add_route(Method::GET, "/a/:x", 5);
    assert_eq!(router.resolve(Method::GET, "/").0, Some(&1));
    assert_eq!(router.resolve(Method::GET, "/a").0, Some(&2));
    assert_eq!(router.resolve(Method::GET, "/a/b").0, Some(&3));
    assert_eq!(router.resolve(Method::POST, "/a/b").0, Some(&4));
    assert!(router.resolve(Method::GET, "/a/b").1.is_empty());
}

#[test]
fn parameter_is_bound_to_the_exact_segment() {
    let mut router: Router<u32> = Router::new();
    router.add_route(Method::GET, "/echo/:message", 1);
    let (handler, params) = router.resolve(Method::GET, "/echo/hi");
    assert_eq!(handler, Some(&1));
    assert_eq!(params.get("message").map(|s| s.as_str()), Some("hi"));
}

#[test]
fn parameter_text_is_not_decoded() {
    let mut router: Router<u32> = Router::new();
    router.add_route(Method::GET, "/echo/:message", 1);
    let (handler, params) = router.resolve(Method::GET, "/echo/a%20b&c=d?e#f:g");
    assert_eq!(handler, Some(&1));
    assert_eq!(params.get("message").map(|s| s.as_str()), Some("a%20b&c=d?e#f:g"));
    let (_, params) = router.resolve(Method::GET, "/echo/\u{e9}\u{4e2d}");
    assert_eq!(params.get("message").map(|s| s.as_str()), Some("\u{e9}\u{4e2d}"));
}

#[test]
fn several_parameters_are_bound() {
    let mut router: Router<u32> = Router::new();
    router.add_route(Method::GET, "/users/:id/posts/:post", 9);
    let (handler, params) = router.resolve(Method::GET, "/users/42/posts/first");
    assert_eq!(handler, Some(&9));
    assert_eq!(params.get("id").map(|s| s.as_str()), Some("42"));
    assert_eq!(params.get("post").map(|s| s.as_str()), Some("first"));
    assert!(params.get("other").is_none());
}

#[test]
fn registering_twice_keeps_the_latest_handler() {
    let mut router: Router<u32> = Router::new();
    router.add_route(Method::GET, "/a/b", 1);
    router.add_route(Method::GET, "/a/b", 2);
    assert_eq!(router.resolve(Method::GET, "/a/b").0, Some(&2));
    router.add_route(Method::GET, "/p/:x", 3);
    router.add_route(Method::GET, "/p/:x", 4);
    assert_eq!(router.resolve(Method::GET, "/p/anything").0, Some(&4));
}

#[test]
fn unregistered_method_finds_nothing() {
    let mut router: Router<u32> = Router::new();
    router.add_route(Method::GET, "/a", 1);
    let (handler, params) = router.resolve(Method::POST, "/a");
    assert_eq!(handler, None);
    assert!(params.is_empty());
    assert_eq!(router.resolve(Method::PUT, "/a").0, None);
    assert_eq!(router.resolve(Method::DELETE, "/a").0, None);
    assert_eq!(router.resolve(Method::PATCH, "/a").0, None);
}

#[test]
fn unregistered_path_finds_nothing_at_any_depth() {
    let mut router: Router<u32> = Router::new();
    router.add_route(Method::GET, "/a/b/c", 1);
    assert_eq!(router.resolve(Method::GET, "/x").0, None);
    assert_eq!(router.resolve(Method::GET, "/a/x").0, None);
    assert_eq!(router.resolve(Method::GET, "/a/b/x").0, None);
    assert_eq!(router.resolve(Method::GET, "/a/b/c/d").0, None);
    assert_eq!(router.resolve(Method::GET, "/a/b").0, None);
    assert_eq!(router.resolve(Method::GET, "/a").0, None);
    assert_eq!(router.resolve(Method::GET, "/").0, None);
    assert_eq!(router.resolve(Method::GET, "").0, None);
}

#[test]
fn empty_router_finds_nothing() {
    let router: Router<u32> = Router::new();
    assert_eq!(router.resolve(Method::GET, "/").0, None);
    assert_eq!(router.resolve(Method::GET, "/a/b").0, None);
}

#[test]
fn resolving_twice_gives_the_same() {
    let mut router: Router<u32> = Router::new();
    router.add_route(Method::GET, "/echo/:message", 1);
    let first = router.resolve(Method::GET, "/echo/hi");
    let second = router.resolve(Method::GET, "/echo/hi");
    assert_eq!(first.0, second.0);
    assert_eq!(first.1.get("message"), second.1.get("message"));
    let miss_one = router.resolve(Method::GET, "/nothing/here/at/all");
    let miss_two = router.resolve(Method::GET, "/nothing/here/at/all");
    assert_eq!(miss_one.0, None);
    assert_eq!(miss_two.0, None);
    assert_eq!(router.resolve(Method::GET, "/echo/hi").0, Some(&1));
}

#[test]
fn literal_child_is_preferred_to_the_dynamic_one() {
    let mut router: Router<u32> = Router::new();
    router.add_route(Method::GET, "/a/:x", 1);
    router.add_route(Method::GET, "/a/b", 2);
    let (handler, params) = router.resolve(Method::GET, "/a/b");
    assert_eq!(handler, Some(&2));
    assert!(params.is_empty());
    let (handler, params) = router.resolve(Method::GET, "/a/c");
    assert_eq!(handler, Some(&1));
    assert_eq!(params.get("x").map(|s| s.as_str()), Some("c"));
}

#[test]
fn a_literal_prefix_that_fails_deeper_is_not_retried() {
    let mut router: Router<u32> = Router::new();
    router.add_route(Method::GET, "/a/b", 1);
    router.add_route(Method::GET, "/:x/c", 2);
    assert_eq!(router.resolve(Method::GET, "/a/c").0, None);
    assert_eq!(router.resolve(Method::GET, "/z/c").0, Some(&2));
}

#[test]
fn the_last_parameter_name_at_a_place_wins() {
    let mut router: Router<u32> = Router::new();
    router.add_route(Method::GET, "/:message/one", 1);
    router.add_route(Method::GET, "/:duration/two", 2);
    let (handler, params) = router.resolve(Method::GET, "/v/one");
    assert_eq!(handler, Some(&1));
    assert!(params.get("message").is_none());
    assert_eq!(params.get("duration").map(|s| s.as_str()), Some("v"));
}

#[test]
fn a_miss_keeps_the_parameters_bound_so_far() {
    let mut router: Router<u32> = Router::new();
    router.add_route(Method::GET, "/:x/b", 1);
    let (handler, params) = router.resolve(Method::GET, "/v/c");
    assert_eq!(handler, None);
    assert_eq!(params.get("x").map(|s| s.as_str()), Some("v"));
}

#[test]
fn slashes_at_the_ends_do_not_count() {
    let mut router: Router<u32> = Router::new();
    router.add_route(Method::GET, "a/b/", 1);
    assert_eq!(router.resolve(Method::GET, "/a/b").0, Some(&1));
    assert_eq!(router.resolve(Method::GET, "//a/b//").0, Some(&1));
    assert_eq!(router.resolve(Method::GET, "/a//b").0, None);
}

#[test]
fn the_shorthands_register_under_their_method() {
    let mut router: Router<u32> = Router::new();
    router.get("/r", 1);
    router.post("/r", 2);
    router.put("/r", 3);
    router.delete("/r", 4);
    assert_eq!(router.resolve(Method::GET, "/r").0, Some(&1));
    assert_eq!(router.resolve(Method::POST, "/r").0, Some(&2));
    assert_eq!(router.resolve(Method::PUT, "/r").0, Some(&3));
    assert_eq!(router.resolve(Method::DELETE, "/r").0, Some(&4));
    assert_eq!(router.resolve(Method::PATCH, "/r").0, None);
}

#[test]
fn path_segments_are_what_lies_between_the_slashes() {
    assert_eq!(path_segments("/a/b"), vec!["a".to_string(), "b".to_string()]);
    assert_eq!(path_segments("/"), vec!["".to_string()]);
    assert_eq!(path_segments(""), vec!["".to_string()]);
    assert_eq!(path_segments("a//b/"), vec!["a".to_string(), "".to_string(), "b".to_string()]);
    assert_eq!(path_segments("/echo/:message"), vec!["echo".to_string(), ":message".to_string()]);
}

#[test]
fn a_node_is_a_trie_of_its_own() {
    let mut node: RouteNode<u32> = RouteNode::new();
    let pattern = vec!["a".to_string(), ":id".to_string()];
    node.insert(&pattern, 0, 5);
    let path = vec!["a".to_string(), "12".to_string()];
    let (handler, params) = node.lookup(&path);
    assert_eq!(handler, Some(&5));
    assert_eq!(params.get("id").map(|s| s.as_str()), Some("12"));
    node.insert(&pattern, 2, 6);
    let none: Vec<String> = Vec::new();
    assert_eq!(node.lookup(&none).0, Some(&6));
}
