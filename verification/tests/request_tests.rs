use http_server::options::Options;
use http_server::request::{HTTPMethod, ParseError, Request};

fn options() -> Options {
    Options { host: "localhost".to_string(), port: 4221, files_directory: "/tmp".to_string() }
}

fn parse(text: &str) -> Result<Request, ParseError> {
    Request::new(text.to_string(), options())
}

fn header<'a>(request: &'a Request, name: &str) -> Option<&'a str> {
    request.headers.get(name).map(|value| value.as_str())
}

fn query<'a>(request: &'a Request, name: &str) -> Option<&'a str> {
    request.query.get(name).map(|value| value.as_str())
}

#[test]
fn parses_a_simple_get() {
    let request = parse("GET / HTTP/1.1\r\nHost: x\r\n\r\n").unwrap();
    assert_eq!(request.method, HTTPMethod::GET);
    assert_eq!(request.url, "/");
    assert_eq!(request.protocol, "HTTP");
    assert_eq!(request.protocol_version, "1.1");
    assert_eq!(header(&request, "Host"), Some("x"));
    assert_eq!(request.headers.len(), 1);
    assert_eq!(request.host, Some("x".to_string()));
    assert_eq!(request.body, "");
    assert_eq!(request.query.len(), 0);
    assert_eq!(request.params.len(), 0);
}

#[test]
fn keeps_the_options_it_was_given() {
    let request = parse("GET / HTTP/1.1\r\n\r\n").unwrap();
    assert_eq!(request.server_options.host, "localhost");
    assert_eq!(request.server_options.port, 4221);
    assert_eq!(request.server_options.files_directory, "/tmp");
}

#[test]
fn parses_every_known_method() {
    let methods = [
        ("GET", HTTPMethod::GET),
        ("POST", HTTPMethod::POST),
        ("PUT", HTTPMethod::PUT),
        ("PATCH", HTTPMethod::PATCH),
        ("DELETE", HTTPMethod::DELETE),
        ("OPTIONS", HTTPMethod::OPTIONS),
        ("HEAD", HTTPMethod::HEAD),
    ];
    for (text, method) in methods {
        let request = parse(&format!("{} /x HTTP/1.1\r\n\r\n", text)).unwrap();
        assert_eq!(request.method, method);
        assert_eq!(method.text(), text);
        assert_eq!(HTTPMethod::parse(text), Some(method));
    }
}

#[test]
fn method_match_is_case_sensitive() {
    assert_eq!(HTTPMethod::parse("get"), None);
    assert_eq!(HTTPMethod::parse("Get"), None);
    assert_eq!(HTTPMethod::parse(""), None);
    assert_eq!(HTTPMethod::parse("GETS"), None);
    assert_eq!(parse("get / HTTP/1.1\r\n\r\n").err(), Some(ParseError::UnsupportedMethod));
}

#[test]
fn unknown_method_is_unsupported() {
    assert_eq!(parse("BREW /pot HTCPCP/1.0\r\n\r\n").err(), Some(ParseError::UnsupportedMethod));
}

#[test]
fn fewer_than_three_words_is_a_malformed_request_line() {
    assert_eq!(parse("GET /\r\n\r\n").err(), Some(ParseError::MalformedRequestLine));
    assert_eq!(parse("GET\r\n\r\n").err(), Some(ParseError::MalformedRequestLine));
    assert_eq!(parse("").err(), Some(ParseError::MalformedRequestLine));
    assert_eq!(parse("   \r\nHost: x\r\n\r\n").err(), Some(ParseError::MalformedRequestLine));
}

#[test]
fn protocol_without_slash_is_a_malformed_request_line() {
    assert_eq!(parse("GET / HTTP1.1\r\n\r\n").err(), Some(ParseError::MalformedRequestLine));
}

#[test]
fn words_may_be_set_apart_by_any_white_space() {
    let request = parse("GET \t /a   HTTP/1.1\r\n\r\n").unwrap();
    assert_eq!(request.url, "/a");
    assert_eq!(request.protocol_version, "1.1");
}

#[test]
fn words_after_the_third_are_ignored() {
    let request = parse("GET /a HTTP/1.1 extra words\r\n\r\n").unwrap();
    assert_eq!(request.url, "/a");
    assert_eq!(request.protocol, "HTTP");
    assert_eq!(request.protocol_version, "1.1");
}

#[test]
fn protocol_takes_the_first_two_pieces() {
    let request = parse("GET /a HTTP/1.1/more\r\n\r\n").unwrap();
    assert_eq!(request.protocol, "HTTP");
    assert_eq!(request.protocol_version, "1.1");
}

#[test]
fn splits_the_target_at_the_first_question_mark() {
    let request = parse("GET /search?q=rust&page=2 HTTP/1.1\r\n\r\n").unwrap();
    assert_eq!(request.url, "/search");
    assert_eq!(query(&request, "q"), Some("rust"));
    assert_eq!(query(&request, "page"), Some("2"));
    assert_eq!(request.query.len(), 2);
}

#[test]
fn everything_after_the_first_question_mark_is_query() {
    let request = parse("GET /a?x=1?y HTTP/1.1\r\n\r\n").unwrap();
    assert_eq!(request.url, "/a");
    assert_eq!(query(&request, "x"), Some("1?y"));
}

#[test]
fn query_pairs_without_exactly_one_equals_are_dropped() {
    let request = parse("GET /a?flag&k=v&a=b=c&=&x= HTTP/1.1\r\n\r\n").unwrap();
    assert_eq!(query(&request, "flag"), None);
    assert_eq!(query(&request, "k"), Some("v"));
    assert_eq!(query(&request, "a"), None);
    assert_eq!(query(&request, ""), Some(""));
    assert_eq!(query(&request, "x"), Some(""));
    assert_eq!(request.query.len(), 3);
}

#[test]
fn later_query_pair_overwrites_earlier() {
    let request = parse("GET /a?k=1&k=2 HTTP/1.1\r\n\r\n").unwrap();
    assert_eq!(query(&request, "k"), Some("2"));
    assert_eq!(request.query.len(), 1);
}

#[test]
fn empty_query_string_gives_no_parameters() {
    let request = parse("GET /a? HTTP/1.1\r\n\r\n").unwrap();
    assert_eq!(request.url, "/a");
    assert_eq!(request.query.len(), 0);
}

#[test]
fn reads_headers_until_the_empty_line() {
    let request =
        parse("POST /a HTTP/1.1\r\nHost: h\r\nUser-Agent: curl/8\r\n\r\nNot: header\r\n").unwrap();
    assert_eq!(header(&request, "Host"), Some("h"));
    assert_eq!(header(&request, "User-Agent"), Some("curl/8"));
    assert_eq!(header(&request, "Not"), None);
    assert_eq!(request.headers.len(), 2);
    assert_eq!(request.body, "Not: header");
}

#[test]
fn repeated_header_overwrites() {
    let request = parse("GET / HTTP/1.1\r\nX-A: 1\r\nX-A: 2\r\n\r\n").unwrap();
    assert_eq!(header(&request, "X-A"), Some("2"));
    assert_eq!(request.headers.len(), 1);
}

#[test]
fn header_names_are_case_sensitive() {
    let request = parse("GET / HTTP/1.1\r\nhost: lower\r\n\r\n").unwrap();
    assert_eq!(header(&request, "host"), Some("lower"));
    assert_eq!(header(&request, "Host"), None);
    assert_eq!(request.host, None);
}

#[test]
fn header_without_separator_is_malformed() {
    assert_eq!(parse("GET / HTTP/1.1\r\nHost\r\n\r\n").err(), Some(ParseError::MalformedHeader));
    assert_eq!(parse("GET / HTTP/1.1\r\nHost:x\r\n\r\n").err(), Some(ParseError::MalformedHeader));
}

#[test]
fn header_with_two_separators_is_malformed() {
    assert_eq!(
        parse("GET / HTTP/1.1\r\nHost: a: b\r\n\r\n").err(),
        Some(ParseError::MalformedHeader)
    );
}

#[test]
fn header_value_may_be_empty() {
    let request = parse("GET / HTTP/1.1\r\nX-Empty: \r\n\r\n").unwrap();
    assert_eq!(header(&request, "X-Empty"), Some(""));
}

#[test]
fn request_line_error_comes_before_header_error() {
    assert_eq!(parse("GET /\r\nbroken\r\n\r\n").err(), Some(ParseError::MalformedRequestLine));
}

#[test]
fn header_error_comes_before_method_error() {
    assert_eq!(parse("BREW / HTTP/1.1\r\nbroken\r\n\r\n").err(), Some(ParseError::MalformedHeader));
}

#[test]
fn lines_after_the_empty_line_are_not_headers() {
    let request = parse("GET / HTTP/1.1\r\n\r\nbroken header line\r\n").unwrap();
    assert_eq!(request.headers.len(), 0);
    assert_eq!(request.body, "broken header line");
}

#[test]
fn body_is_the_line_after_the_empty_line_as_it_stands() {
    let request = parse("POST /f HTTP/1.1\r\nHost: x\r\n\r\n  hello world \t\r\nsecond line").unwrap();
    assert_eq!(request.body, "  hello world \t");
}

#[test]
fn body_keeps_its_white_space() {
    assert_eq!(parse("POST /f HTTP/1.1\r\n\r\n  hi  ").unwrap().body, "  hi  ");
    assert_eq!(parse("POST /f HTTP/1.1\r\n\r\n \t ").unwrap().body, " \t ");
    assert_eq!(parse("POST /f HTTP/1.1\r\n\r\nline\nfeed\n").unwrap().body, "line\nfeed\n");
}

#[test]
fn message_that_stops_early_has_an_empty_body() {
    assert_eq!(parse("GET / HTTP/1.1").unwrap().body, "");
    assert_eq!(parse("GET / HTTP/1.1\r\n").unwrap().body, "");
    assert_eq!(parse("GET / HTTP/1.1\r\nHost: x").unwrap().body, "");
    assert_eq!(parse("GET / HTTP/1.1\r\nHost: x\r\n").unwrap().body, "");
}

#[test]
fn bare_line_feed_does_not_end_a_line() {
    let request = parse("GET / HTTP/1.1\nHost: x\n\n").unwrap();
    assert_eq!(request.headers.len(), 0);
    assert_eq!(request.protocol_version, "1.1");
}

#[test]
fn host_comes_from_the_host_header() {
    let request = parse("GET /a HTTP/1.1\r\nHost: example.org:8080\r\n\r\n").unwrap();
    assert_eq!(request.host, Some("example.org:8080".to_string()));
}

#[test]
fn host_is_absent_without_header_and_authority() {
    let request = parse("GET /a HTTP/1.1\r\nAccept: */*\r\n\r\n").unwrap();
    assert_eq!(request.host, None);
}

#[test]
fn absolute_form_host_wins_over_the_header() {
    let request =
        parse("GET http://example.org/a/b?x=1 HTTP/1.1\r\nHost: other\r\n\r\n").unwrap();
    assert_eq!(request.host, Some("example.org".to_string()));
    assert_eq!(request.url, "/a/b");
    assert_eq!(query(&request, "x"), Some("1"));
    assert_eq!(header(&request, "Host"), Some("other"));
}

#[test]
fn absolute_form_without_path_has_an_empty_path() {
    let request = parse("GET http://example.org HTTP/1.1\r\n\r\n").unwrap();
    assert_eq!(request.host, Some("example.org".to_string()));
    assert_eq!(request.url, "");
}

#[test]
fn absolute_form_without_authority_falls_back_to_the_header() {
    let request = parse("GET http:///a HTTP/1.1\r\nHost: h\r\n\r\n").unwrap();
    assert_eq!(request.host, Some("h".to_string()));
    assert_eq!(request.url, "/a");
}

#[test]
fn other_schemes_are_plain_paths() {
    let request = parse("GET https://example.org/a HTTP/1.1\r\n\r\n").unwrap();
    assert_eq!(request.host, None);
    assert_eq!(request.url, "https://example.org/a");
}

#[test]
fn parse_first_line_reads_all_parts() {
    let first = Request::parse_first_line("PUT /files/a.txt?mode=w HTTP/1.0").unwrap();
    assert_eq!(first.method, "PUT");
    assert_eq!(first.url, "/files/a.txt");
    assert_eq!(first.query.get("mode").map(|v| v.as_str()), Some("w"));
    assert_eq!(first.protocol, "HTTP");
    assert_eq!(first.protocol_version, "1.0");
    assert_eq!(first.host, "");
}

#[test]
fn parse_first_line_does_not_judge_the_method() {
    let first = Request::parse_first_line("BREW /pot HTCPCP/1.0").unwrap();
    assert_eq!(first.method, "BREW");
    assert_eq!(first.protocol, "HTCPCP");
}

#[test]
fn parse_first_line_rejects_short_lines() {
    assert_eq!(
        Request::parse_first_line("GET /only").err(),
        Some(ParseError::MalformedRequestLine)
    );
}

#[test]
fn parse_protocol_reads_the_third_word() {
    let parts = vec!["GET".to_string(), "/".to_string(), " HTTP/1.1 ".to_string()];
    assert_eq!(Request::parse_protocol(&parts), Ok(("HTTP".to_string(), "1.1".to_string())));
}

#[test]
fn parse_protocol_rejects_what_it_cannot_read() {
    let short = vec!["GET".to_string(), "/".to_string()];
    assert_eq!(Request::parse_protocol(&short), Err(ParseError::MalformedRequestLine));
    let no_slash = vec!["GET".to_string(), "/".to_string(), "HTTP".to_string()];
    assert_eq!(Request::parse_protocol(&no_slash), Err(ParseError::MalformedRequestLine));
}

#[test]
fn parse_request_target_trims_and_splits() {
    let (url, query, host) = Request::parse_request_target("  /a/b?k=v&n=1  ");
    assert_eq!(url, "/a/b");
    assert_eq!(query.get("k").map(|v| v.as_str()), Some("v"));
    assert_eq!(query.get("n").map(|v| v.as_str()), Some("1"));
    assert_eq!(host, "");
}

#[test]
fn parse_request_target_reads_the_authority() {
    let (url, query, host) = Request::parse_request_target("http://h:80/p?x=y");
    assert_eq!(url, "/p");
    assert_eq!(host, "h:80");
    assert_eq!(query.get("x").map(|v| v.as_str()), Some("y"));
}

#[test]
fn parses_text_beyond_ascii() {
    let request = parse("GET /caf\u{e9}?na\u{ef}ve=\u{2603} HTTP/1.1\r\nX-Name: Zo\u{eb}\r\n\r\n")
        .unwrap();
    assert_eq!(request.url, "/caf\u{e9}");
    assert_eq!(query(&request, "na\u{ef}ve"), Some("\u{2603}"));
    assert_eq!(header(&request, "X-Name"), Some("Zo\u{eb}"));
}

#[test]
fn a_clone_holds_the_same_request() {
    let request = parse("POST /a?k=v HTTP/1.1\r\nHost: h\r\nX-A: b\r\n\r\nbody").unwrap();
    let copy = request.clone();
    assert_eq!(copy.method, HTTPMethod::POST);
    assert_eq!(copy.url, "/a");
    assert_eq!(copy.host, Some("h".to_string()));
    assert_eq!(copy.body, "body");
    assert_eq!(copy.headers.len(), 2);
    assert_eq!(copy.headers.key_at(0), "Host");
    assert_eq!(copy.headers.key_at(1), "X-A");
    assert_eq!(header(&copy, "X-A"), Some("b"));
    assert_eq!(query(&copy, "k"), Some("v"));
    assert_eq!(copy.server_options.port, request.server_options.port);
}
