use http_server::pattern::{char_offset_of, collect_offsets, Capture};
use http_server::request::HTTPMethod;
use http_server::router::{Router, RouterError};
use http_server::server::read_param;
use http_server::string_map::StringMap;
use http_server::text::to_chars;

fn router() -> Router<&'static str> {
    Router::new().unwrap()
}

fn lookup(
    router: &Router<&'static str>,
    method: HTTPMethod,
    path: &str,
) -> (Option<&'static str>, Vec<(String, usize)>) {
    let (handler, offsets) = router.get_handler(&method, path);
    let mut listed = Vec::new();
    for i in 0..offsets.len() {
        listed.push((offsets.key_at(i).clone(), *offsets.value_at(i)));
    }
    listed.sort();
    (handler.copied(), listed)
}

#[test]
fn new_router_resolves_nothing() {
    let router = router();
    assert_eq!(lookup(&router, HTTPMethod::GET, "/"), (None, vec![]));
    assert_eq!(lookup(&router, HTTPMethod::GET, ""), (None, vec![]));
    assert_eq!(lookup(&router, HTTPMethod::POST, "/a/b"), (None, vec![]));
}

#[test]
fn literal_route_resolves_to_its_handler() {
    let mut router = router();
    assert_eq!(router.get("/", "root"), Ok(()));
    assert_eq!(router.get("/user-agent", "agent"), Ok(()));
    assert_eq!(router.get("/a/b/c", "deep"), Ok(()));
    assert_eq!(lookup(&router, HTTPMethod::GET, "/"), (Some("root"), vec![]));
    assert_eq!(lookup(&router, HTTPMethod::GET, "/user-agent"), (Some("agent"), vec![]));
    assert_eq!(lookup(&router, HTTPMethod::GET, "/a/b/c"), (Some("deep"), vec![]));
}

#[test]
fn every_registration_method_uses_its_own_http_method() {
    let mut router = router();
    router.get("/m", "get").unwrap();
    router.post("/m", "post").unwrap();
    router.put("/m", "put").unwrap();
    router.patch("/m", "patch").unwrap();
    router.delete("/m", "delete").unwrap();
    router.options("/m", "options").unwrap();
    router.head("/m", "head").unwrap();
    assert_eq!(lookup(&router, HTTPMethod::GET, "/m").0, Some("get"));
    assert_eq!(lookup(&router, HTTPMethod::POST, "/m").0, Some("post"));
    assert_eq!(lookup(&router, HTTPMethod::PUT, "/m").0, Some("put"));
    assert_eq!(lookup(&router, HTTPMethod::PATCH, "/m").0, Some("patch"));
    assert_eq!(lookup(&router, HTTPMethod::DELETE, "/m").0, Some("delete"));
    assert_eq!(lookup(&router, HTTPMethod::OPTIONS, "/m").0, Some("options"));
    assert_eq!(lookup(&router, HTTPMethod::HEAD, "/m").0, Some("head"));
}

#[test]
fn define_route_is_what_the_shorthands_call() {
    let mut router = router();
    assert_eq!(router.define_route(&HTTPMethod::PUT, "/x/y".to_string(), "put"), Ok(()));
    assert_eq!(lookup(&router, HTTPMethod::PUT, "/x/y").0, Some("put"));
    assert_eq!(lookup(&router, HTTPMethod::GET, "/x/y").0, None);
}

#[test]
fn inner_nodes_have_no_handler() {
    let mut router = router();
    router.get("/a/b/c", "deep").unwrap();
    assert_eq!(lookup(&router, HTTPMethod::GET, "/a"), (None, vec![]));
    assert_eq!(lookup(&router, HTTPMethod::GET, "/a/b"), (None, vec![]));
    assert_eq!(lookup(&router, HTTPMethod::GET, "/a/b/c/d"), (None, vec![]));
}

#[test]
fn unregistered_method_is_not_found() {
    let mut router = router();
    router.get("/only-get", "get").unwrap();
    assert_eq!(lookup(&router, HTTPMethod::POST, "/only-get").0, None);
    assert_eq!(lookup(&router, HTTPMethod::HEAD, "/only-get").0, None);
}

#[test]
fn parameter_route_matches_any_segment() {
    let mut router = router();
    router.get("/echo/:content", "echo").unwrap();
    let found = lookup(&router, HTTPMethod::GET, "/echo/hello");
    assert_eq!(found, (Some("echo"), vec![("content".to_string(), 6)]));
    assert_eq!(read_param(&to_chars("/echo/hello"), 6), "hello");
    assert_eq!(lookup(&router, HTTPMethod::GET, "/echo/x").0, Some("echo"));
    assert_eq!(lookup(&router, HTTPMethod::GET, "/echo/*").0, Some("echo"));
}

#[test]
fn longer_path_stops_at_the_parameter_node_without_handler() {
    let mut router = router();
    router.get("/echo/:content", "echo").unwrap();
    let (handler, offsets) = lookup(&router, HTTPMethod::GET, "/echo/hello/world");
    assert_eq!(handler, None);
    assert_eq!(offsets, vec![("content".to_string(), 6)]);
    assert_eq!(read_param(&to_chars("/echo/hello/world"), 6), "hello");
}

#[test]
fn partial_match_gives_the_parameters_of_the_deepest_node() {
    let mut router = router();
    router.get("/files/:filename", "files").unwrap();
    assert_eq!(lookup(&router, HTTPMethod::GET, "/files"), (None, vec![]));
    assert_eq!(
        lookup(&router, HTTPMethod::GET, "/files/a/b/c"),
        (None, vec![("filename".to_string(), 7)])
    );
    assert_eq!(lookup(&router, HTTPMethod::GET, "/other/a"), (None, vec![]));
}

#[test]
fn two_methods_on_one_pattern_resolve_independently() {
    let mut router = router();
    router.get("/files/:filename", "read").unwrap();
    router.post("/files/:filename", "write").unwrap();
    assert_eq!(
        lookup(&router, HTTPMethod::GET, "/files/a.txt"),
        (Some("read"), vec![("filename".to_string(), 7)])
    );
    assert_eq!(
        lookup(&router, HTTPMethod::POST, "/files/a.txt"),
        (Some("write"), vec![("filename".to_string(), 7)])
    );
    assert_eq!(lookup(&router, HTTPMethod::PUT, "/files/a.txt").0, None);
}

#[test]
fn re_registering_overwrites_the_handler() {
    let mut router = router();
    router.get("/a", "first").unwrap();
    router.get("/a", "second").unwrap();
    assert_eq!(lookup(&router, HTTPMethod::GET, "/a").0, Some("second"));
    router.get("/p/:x", "third").unwrap();
    router.get("/p/:x", "fourth").unwrap();
    assert_eq!(
        lookup(&router, HTTPMethod::GET, "/p/v"),
        (Some("fourth"), vec![("x".to_string(), 3)])
    );
}

#[test]
fn literal_child_is_preferred_to_the_wildcard() {
    let mut router = router();
    router.get("/files/:filename", "any").unwrap();
    router.get("/files/index", "index").unwrap();
    assert_eq!(lookup(&router, HTTPMethod::GET, "/files/index"), (Some("index"), vec![]));
    assert_eq!(
        lookup(&router, HTTPMethod::GET, "/files/other"),
        (Some("any"), vec![("filename".to_string(), 7)])
    );
}

#[test]
fn literal_preference_does_not_backtrack() {
    let mut router = router();
    router.get("/a/:x/end", "wild").unwrap();
    router.get("/a/lit", "lit").unwrap();
    assert_eq!(lookup(&router, HTTPMethod::GET, "/a/other/end").0, Some("wild"));
    assert_eq!(lookup(&router, HTTPMethod::GET, "/a/lit/end").0, None);
}

#[test]
fn parameters_with_different_names_share_the_wildcard_node() {
    let mut router = router();
    router.get("/u/:id", "get").unwrap();
    router.post("/u/:name", "post").unwrap();
    let expected = vec![("id".to_string(), 3), ("name".to_string(), 3)];
    assert_eq!(lookup(&router, HTTPMethod::GET, "/u/7"), (Some("get"), expected.clone()));
    assert_eq!(lookup(&router, HTTPMethod::POST, "/u/7"), (Some("post"), expected));
}

#[test]
fn several_parameters_keep_their_pattern_offsets() {
    let mut router = router();
    router.get("/u/:id/posts/:post_id", "post").unwrap();
    assert_eq!(
        lookup(&router, HTTPMethod::GET, "/u/1/posts/2"),
        (Some("post"), vec![("id".to_string(), 3), ("post_id".to_string(), 13)])
    );
}

#[test]
fn offsets_are_replayed_as_they_stand() {
    // the second offset belongs to the pattern, not to the request path
    let path = to_chars("/u/12345/posts/2");
    assert_eq!(read_param(&path, 3), "12345");
    assert_eq!(read_param(&path, 13), "s");
}

#[test]
fn empty_segments_use_the_root_key() {
    let mut router = router();
    router.get("/a//b", "double").unwrap();
    router.get("/t/", "trailing").unwrap();
    assert_eq!(lookup(&router, HTTPMethod::GET, "/a//b").0, Some("double"));
    assert_eq!(lookup(&router, HTTPMethod::GET, "/a/b").0, None);
    assert_eq!(lookup(&router, HTTPMethod::GET, "/t/").0, Some("trailing"));
    assert_eq!(lookup(&router, HTTPMethod::GET, "/t").0, None);
    // an empty segment and the segment "/" cannot be told apart: "/" alone
    // is the path of the two keys "/" and "/"
    router.get("/", "root").unwrap();
    assert_eq!(lookup(&router, HTTPMethod::GET, "/").0, Some("root"));
    assert_eq!(lookup(&router, HTTPMethod::GET, "").0, None);
}

#[test]
fn names_hold_lower_case_letters_digits_and_underscores() {
    let mut router = router();
    router.get("/x/:file_name2", "a").unwrap();
    assert_eq!(
        lookup(&router, HTTPMethod::GET, "/x/v"),
        (Some("a"), vec![("file_name2".to_string(), 3)])
    );
    // an upper-case letter ends the name; the rest stays in the segment
    router.get("/y/:idX", "b").unwrap();
    assert_eq!(lookup(&router, HTTPMethod::GET, "/y/v").0, None);
    assert_eq!(
        lookup(&router, HTTPMethod::GET, "/y/*X"),
        (Some("b"), vec![("id".to_string(), 3)])
    );
    // a colon without a name is literal
    router.get("/z/:", "c").unwrap();
    assert_eq!(lookup(&router, HTTPMethod::GET, "/z/:"), (Some("c"), vec![]));
    assert_eq!(lookup(&router, HTTPMethod::GET, "/z/v").0, None);
}

#[test]
fn offsets_count_characters_not_bytes() {
    let mut router = router();
    router.get("/caf\u{e9}/:name", "cafe").unwrap();
    let found = lookup(&router, HTTPMethod::GET, "/caf\u{e9}/bob");
    assert_eq!(found, (Some("cafe"), vec![("name".to_string(), 6)]));
    assert_eq!(read_param(&to_chars("/caf\u{e9}/bob"), 6), "bob");
}

#[test]
fn register_takes_a_literal_pattern_and_offsets() {
    let mut router = router();
    let mut offsets = StringMap::new();
    offsets.insert("id".to_string(), 4);
    router.register(&HTTPMethod::DELETE, "/it/*", &offsets, "delete");
    assert_eq!(
        lookup(&router, HTTPMethod::DELETE, "/it/9"),
        (Some("delete"), vec![("id".to_string(), 4)])
    );
    // here the colon is no token: the segment is literal
    router.register(&HTTPMethod::DELETE, "/it/:id", &StringMap::new(), "literal");
    assert_eq!(lookup(&router, HTTPMethod::DELETE, "/it/:id").0, Some("literal"));
    assert_eq!(lookup(&router, HTTPMethod::DELETE, "/it/9").0, Some("delete"));
}

#[test]
fn register_merges_offsets_and_overwrites_equal_names() {
    let mut router = router();
    let mut first = StringMap::new();
    first.insert("a".to_string(), 1);
    first.insert("b".to_string(), 2);
    let mut second = StringMap::new();
    second.insert("b".to_string(), 20);
    second.insert("c".to_string(), 30);
    router.register(&HTTPMethod::GET, "/n", &first, "one");
    router.register(&HTTPMethod::POST, "/n", &second, "two");
    let expected =
        vec![("a".to_string(), 1), ("b".to_string(), 20), ("c".to_string(), 30)];
    assert_eq!(lookup(&router, HTTPMethod::GET, "/n"), (Some("one"), expected.clone()));
    assert_eq!(lookup(&router, HTTPMethod::POST, "/n"), (Some("two"), expected));
}

#[test]
fn char_offset_of_counts_characters_before_a_byte() {
    let ascii = to_chars("/echo/:content");
    assert_eq!(char_offset_of(&ascii, 0), 0);
    assert_eq!(char_offset_of(&ascii, 6), 6);
    assert_eq!(char_offset_of(&ascii, 14), 14);
    assert_eq!(char_offset_of(&ascii, 99), 14);
    let mixed = to_chars("a\u{e9}\u{2603}\u{1f600}z");
    assert_eq!(char_offset_of(&mixed, 1), 1);
    assert_eq!(char_offset_of(&mixed, 3), 2);
    assert_eq!(char_offset_of(&mixed, 6), 3);
    assert_eq!(char_offset_of(&mixed, 10), 4);
    assert_eq!(char_offset_of(&mixed, 11), 5);
    // a byte inside a character counts the character as begun
    assert_eq!(char_offset_of(&mixed, 2), 2);
    assert_eq!(char_offset_of(&mixed, 8), 4);
}

#[test]
fn collect_offsets_places_each_capture_one_byte_earlier() {
    let path = to_chars("/a/:x/:y");
    let groups = vec![
        Some(Capture { text: "x".to_string(), start: 4 }),
        None,
        Some(Capture { text: "y".to_string(), start: 7 }),
    ];
    let offsets = collect_offsets(&path, &groups).unwrap();
    assert_eq!(offsets.len(), 2);
    assert_eq!(offsets.get("x"), Some(&3));
    assert_eq!(offsets.get("y"), Some(&6));
}

#[test]
fn collect_offsets_lets_the_later_capture_win() {
    let path = to_chars("/:a/:a");
    let groups = vec![
        Some(Capture { text: "a".to_string(), start: 2 }),
        Some(Capture { text: "a".to_string(), start: 5 }),
    ];
    let offsets = collect_offsets(&path, &groups).unwrap();
    assert_eq!(offsets.len(), 1);
    assert_eq!(offsets.get("a"), Some(&4));
}

#[test]
fn collect_offsets_refuses_a_capture_at_the_start() {
    let path = to_chars("abc");
    let groups = vec![
        Some(Capture { text: "b".to_string(), start: 1 }),
        Some(Capture { text: "a".to_string(), start: 0 }),
    ];
    assert!(collect_offsets(&path, &groups).is_none());
    assert!(collect_offsets(&path, &Vec::new()).unwrap().len() == 0);
}

#[test]
fn router_error_variants_are_distinct() {
    assert_ne!(RouterError::ParameterPattern, RouterError::ParameterStart);
}

#[test]
fn later_registrations_leave_a_literal_route_alone() {
    let mut router = router();
    router.get("/a/b", "first").unwrap();
    router.post("/a/b", "post").unwrap();
    router.get("/a/:x", "wild").unwrap();
    router.get("/:y/b", "wild first").unwrap();
    router.get("/a/b/c", "deeper").unwrap();
    router.get("/a", "shorter").unwrap();
    router.delete("/a/b", "delete").unwrap();
    assert_eq!(lookup(&router, HTTPMethod::GET, "/a/b").0, Some("first"));
    assert_eq!(lookup(&router, HTTPMethod::POST, "/a/b").0, Some("post"));
    router.get("/a/b", "latest").unwrap();
    assert_eq!(lookup(&router, HTTPMethod::GET, "/a/b").0, Some("latest"));
    assert_eq!(lookup(&router, HTTPMethod::POST, "/a/b").0, Some("post"));
}

#[test]
fn a_new_literal_node_takes_paths_from_the_wildcard() {
    let mut router = router();
    router.get("/a/:x", "wild").unwrap();
    assert_eq!(lookup(&router, HTTPMethod::GET, "/a/b").0, Some("wild"));
    router.post("/a/b", "post").unwrap();
    assert_eq!(lookup(&router, HTTPMethod::GET, "/a/b").0, None);
    assert_eq!(lookup(&router, HTTPMethod::GET, "/a/c").0, Some("wild"));
}

#[test]
fn offset_is_the_index_of_the_colon() {
    let mut router = router();
    router.get("/a/:x", "one").unwrap();
    router.get("/longer/prefix/:name/tail", "two").unwrap();
    assert_eq!(lookup(&router, HTTPMethod::GET, "/a/v").1, vec![("x".to_string(), 3)]);
    assert_eq!(
        lookup(&router, HTTPMethod::GET, "/longer/prefix/v/tail").1,
        vec![("name".to_string(), 15)]
    );
    assert_eq!("/longer/prefix/:name/tail".find(':'), Some(15));
}
