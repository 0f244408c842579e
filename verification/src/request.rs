//! The request parser: from the text of one HTTP message to a [`Request`].
//!
//! The grammar is given by the spec functions of this module, ending in
//! [`parse_request`]; [`Request::new`] computes exactly that function.

use crate::options::Options;
use crate::string_map::StringMap;
use crate::text::{
    find_chars, first_occurrence, from_chars, matches_at, occurs_at, slice_chars, split,
    split_chars, split_words, substring, to_chars, trim, trim_chars, views, words,
};
use vstd::prelude::*;

verus! {

/// The request methods that the server knows.
#[derive(Debug, Clone, Copy, PartialEq, Eq, Hash, Structural)]
pub enum HTTPMethod {
    GET,
    POST,
    PUT,
    PATCH,
    DELETE,
    OPTIONS,
    HEAD,
}

impl HTTPMethod {
    /// The method as it is written on the wire.
    pub open spec fn spec_text(self) -> Seq<char> {
        match self {
            HTTPMethod::GET => "GET"@,
            HTTPMethod::PUT => "PUT"@,
            HTTPMethod::POST => "POST"@,
            HTTPMethod::HEAD => "HEAD"@,
            HTTPMethod::PATCH => "PATCH"@,
            HTTPMethod::DELETE => "DELETE"@,
            HTTPMethod::OPTIONS => "OPTIONS"@,
        }
    }

    /// The method that `text` names. The match is exact and case-sensitive.
    pub open spec fn spec_parse(text: Seq<char>) -> Option<HTTPMethod> {
        if text == "GET"@ {
            Some(HTTPMethod::GET)
        } else if text == "PUT"@ {
            Some(HTTPMethod::PUT)
        } else if text == "POST"@ {
            Some(HTTPMethod::POST)
        } else if text == "HEAD"@ {
            Some(HTTPMethod::HEAD)
        } else if text == "PATCH"@ {
            Some(HTTPMethod::PATCH)
        } else if text == "DELETE"@ {
            Some(HTTPMethod::DELETE)
        } else if text == "OPTIONS"@ {
            Some(HTTPMethod::OPTIONS)
        } else {
            None
        }
    }

    /// Reading a method's own text gives the method back.
    pub proof fn lemma_parse_text(self)
        ensures
            Self::spec_parse(self.spec_text()) == Some(self),
    {
        reveal_strlit("GET");
        reveal_strlit("PUT");
        reveal_strlit("POST");
        reveal_strlit("HEAD");
        reveal_strlit("PATCH");
        reveal_strlit("DELETE");
        reveal_strlit("OPTIONS");
        assert("GET"@.len() == 3 && "PUT"@.len() == 3 && "POST"@.len() == 4 && "HEAD"@.len() == 4);
        assert("PATCH"@.len() == 5 && "DELETE"@.len() == 6 && "OPTIONS"@.len() == 7);
        assert("GET"@[0] == 'G' && "PUT"@[0] == 'P');
        assert("POST"@[0] == 'P' && "HEAD"@[0] == 'H');
    }

    pub fn text(&self) -> (text: &'static str)
        ensures
            text@ == self.spec_text(),
    {
        match self {
            HTTPMethod::GET => "GET",
            HTTPMethod::PUT => "PUT",
            HTTPMethod::POST => "POST",
            HTTPMethod::HEAD => "HEAD",
            HTTPMethod::PATCH => "PATCH",
            HTTPMethod::DELETE => "DELETE",
            HTTPMethod::OPTIONS => "OPTIONS",
        }
    }

    /// The method named by `text`, or `None` for any other text.
    pub fn parse(text: &str) -> (method: Option<HTTPMethod>)
        ensures
            method == Self::spec_parse(text@),
    {
        let wanted: String = text.to_owned();
        if wanted == "GET".to_owned() {
            Some(HTTPMethod::GET)
        } else if wanted == "PUT".to_owned() {
            Some(HTTPMethod::PUT)
        } else if wanted == "POST".to_owned() {
            Some(HTTPMethod::POST)
        } else if wanted == "HEAD".to_owned() {
            Some(HTTPMethod::HEAD)
        } else if wanted == "PATCH".to_owned() {
            Some(HTTPMethod::PATCH)
        } else if wanted == "DELETE".to_owned() {
            Some(HTTPMethod::DELETE)
        } else if wanted == "OPTIONS".to_owned() {
            Some(HTTPMethod::OPTIONS)
        } else {
            None
        }
    }
}

/// Why a message could not be read as a request.
#[derive(Debug, Clone, Copy, PartialEq, Eq, Structural)]
pub enum ParseError {
    /// The first line has fewer than three words, or its third word holds no
    /// `/` between protocol and version.
    MalformedRequestLine,
    /// A header line does not consist of a name, `": "` and a value.
    MalformedHeader,
    /// The first word of the first line is none of the known methods.
    UnsupportedMethod,
}

// ---------------------------------------------------------------------------
// The grammar
// ---------------------------------------------------------------------------

/// What the request target gives: the path, the query parameters and the
/// host of an absolute-form target (empty when the target names none).
pub struct Target {
    pub path: Seq<char>,
    pub query: Map<Seq<char>, Seq<char>>,
    pub host: Seq<char>,
}

/// What the first line gives.
pub struct RequestLine {
    pub method: Seq<char>,
    pub target: Target,
    pub protocol: Seq<char>,
    pub protocol_version: Seq<char>,
}

/// What a whole message gives.
pub struct Message {
    pub method: HTTPMethod,
    pub url: Seq<char>,
    pub query: Map<Seq<char>, Seq<char>>,
    pub protocol: Seq<char>,
    pub protocol_version: Seq<char>,
    pub headers: Map<Seq<char>, Seq<char>>,
    pub host: Option<Seq<char>>,
    pub body: Seq<char>,
}

pub open spec fn crlf() -> Seq<char> {
    seq!['\r', '\n']
}

pub open spec fn header_separator() -> Seq<char> {
    seq![':', ' ']
}

/// The prefix by which an absolute-form target is known.
pub open spec fn scheme_prefix() -> Seq<char> {
    seq!['h', 't', 't', 'p', ':', '/', '/']
}

/// The name of the header that carries the host.
pub open spec fn host_header() -> Seq<char> {
    seq!['H', 'o', 's', 't']
}

/// The query parameters of `pairs[i..]` added to `found`. A pair counts when
/// `=` cuts it into exactly two pieces; a later pair overwrites an earlier
/// one with the same key; any other pair is passed over.
pub open spec fn scan_query(pairs: Seq<Seq<char>>, i: int, found: Map<Seq<char>, Seq<char>>) -> Map<
    Seq<char>,
    Seq<char>,
>
    decreases pairs.len() - i,
{
    if i < 0 || i >= pairs.len() {
        found
    } else {
        let pieces = split(pairs[i], seq!['=']);
        if pieces.len() == 2 {
            scan_query(pairs, i + 1, found.insert(pieces[0], pieces[1]))
        } else {
            scan_query(pairs, i + 1, found)
        }
    }
}

/// The parameters of a query string: its `&`-separated `key=value` pairs.
pub open spec fn parse_query(query: Seq<char>) -> Map<Seq<char>, Seq<char>> {
    scan_query(split(query, seq!['&']), 0, Map::empty())
}

/// The target is trimmed and cut at its first `?`: what follows is the query
/// string. What precedes is the path, unless it begins with `http://`; then
/// the host runs from there to the next `/`, and the path from that `/` on.
pub open spec fn parse_target(target: Seq<char>) -> Target {
    let t = trim(target);
    let (location, query) = match first_occurrence(t, seq!['?'], 0) {
        Some(q) => (t.subrange(0, q), t.subrange(q + 1, t.len() as int)),
        None => (t, Seq::<char>::empty()),
    };
    let (path, host) = if occurs_at(location, scheme_prefix(), 0) {
        match first_occurrence(location, seq!['/'], scheme_prefix().len() as int) {
            Some(p) => (
                location.subrange(p, location.len() as int),
                location.subrange(scheme_prefix().len() as int, p),
            ),
            None => (
                Seq::<char>::empty(),
                location.subrange(scheme_prefix().len() as int, location.len() as int),
            ),
        }
    } else {
        (location, Seq::<char>::empty())
    };
    Target { path, query: parse_query(query), host }
}

/// Protocol name and version: the first two of the pieces into which `/`
/// cuts the trimmed word.
pub open spec fn parse_protocol_word(word: Seq<char>) -> Result<(Seq<char>, Seq<char>), ParseError> {
    let pieces = split(trim(word), seq!['/']);
    if pieces.len() >= 2 {
        Ok((pieces[0], pieces[1]))
    } else {
        Err(ParseError::MalformedRequestLine)
    }
}

/// The first line is `METHOD target PROTOCOL/VERSION`, its words set apart by
/// white space; words after the third are not looked at.
pub open spec fn parse_request_line(line: Seq<char>) -> Result<RequestLine, ParseError> {
    let tokens = words(line);
    if tokens.len() < 3 {
        Err(ParseError::MalformedRequestLine)
    } else {
        match parse_protocol_word(tokens[2]) {
            Ok((protocol, protocol_version)) => Ok(
                RequestLine {
                    method: tokens[0],
                    target: parse_target(tokens[1]),
                    protocol,
                    protocol_version,
                },
            ),
            Err(e) => Err(e),
        }
    }
}

/// The headers of `lines[i..]` added to `found`, and the index of the line
/// at which the header block ends: the first empty line, or the end of the
/// message. Each header line must be cut by `": "` into exactly a name and a
/// value; a repeated name overwrites.
pub open spec fn scan_headers(
    lines: Seq<Seq<char>>,
    i: int,
    found: Map<Seq<char>, Seq<char>>,
) -> Result<(Map<Seq<char>, Seq<char>>, int), ParseError>
    decreases lines.len() - i,
{
    if i < 0 || i >= lines.len() || lines[i].len() == 0 {
        Ok((found, i))
    } else {
        let pieces = split(lines[i], header_separator());
        if pieces.len() == 2 {
            scan_headers(lines, i + 1, found.insert(pieces[0], pieces[1]))
        } else {
            Err(ParseError::MalformedHeader)
        }
    }
}

/// The body is the line that follows the empty line at `end`, taken as it
/// stands; a message that stops before that line has an empty body.
pub open spec fn body_after(lines: Seq<Seq<char>>, end: int) -> Seq<char> {
    if 0 <= end && end + 1 < lines.len() {
        lines[end + 1]
    } else {
        Seq::empty()
    }
}

/// The host of an absolute-form target wins; otherwise the `Host` header
/// gives it; otherwise there is none.
pub open spec fn resolve_host(target_host: Seq<char>, headers: Map<Seq<char>, Seq<char>>) -> Option<
    Seq<char>,
> {
    if target_host.len() > 0 {
        Some(target_host)
    } else if headers.contains_key(host_header()) {
        Some(headers[host_header()])
    } else {
        None
    }
}

/// The request that the text of a message stands for. The lines of the
/// message are set apart by CRLF. Errors are found in this order: the first
/// line, then the headers from top to bottom, then the method.
pub open spec fn parse_request(text: Seq<char>) -> Result<Message, ParseError> {
    let lines = split(text, crlf());
    match parse_request_line(lines[0]) {
        Err(e) => Err(e),
        Ok(line) => match scan_headers(lines, 1, Map::empty()) {
            Err(e) => Err(e),
            Ok((headers, end)) => match HTTPMethod::spec_parse(line.method) {
                None => Err(ParseError::UnsupportedMethod),
                Some(method) => Ok(
                    Message {
                        method,
                        url: line.target.path,
                        query: line.target.query,
                        protocol: line.protocol,
                        protocol_version: line.protocol_version,
                        headers,
                        host: resolve_host(line.target.host, headers),
                        body: body_after(lines, end),
                    },
                ),
            },
        },
    }
}

// ---------------------------------------------------------------------------
// The parser
// ---------------------------------------------------------------------------

/// One parsed request. `params` starts empty and is filled in when the
/// request has been matched against a route.
#[derive(Debug, Clone)]
pub struct Request {
    pub url: String,
    pub protocol: String,
    pub method: HTTPMethod,
    pub host: Option<String>,
    pub server_options: Options,
    pub protocol_version: String,
    pub query: StringMap<String>,
    pub params: StringMap<String>,
    pub headers: StringMap<String>,
    pub body: String,
}

/// The characters of an optional string.
pub open spec fn option_text(s: Option<String>) -> Option<Seq<char>> {
    match s {
        Some(s) => Some(s@),
        None => None,
    }
}

fn one_char(c: char) -> (v: Vec<char>)
    ensures
        v@ == seq![c],
{
    let mut v: Vec<char> = Vec::new();
    v.push(c);
    v
}

fn crlf_chars() -> (v: Vec<char>)
    ensures
        v@ == crlf(),
{
    let mut v: Vec<char> = Vec::new();
    v.push('\r');
    v.push('\n');
    v
}

fn header_separator_chars() -> (v: Vec<char>)
    ensures
        v@ == header_separator(),
{
    let mut v: Vec<char> = Vec::new();
    v.push(':');
    v.push(' ');
    v
}

fn scheme_prefix_chars() -> (v: Vec<char>)
    ensures
        v@ == scheme_prefix(),
{
    let mut v: Vec<char> = Vec::new();
    v.push('h');
    v.push('t');
    v.push('t');
    v.push('p');
    v.push(':');
    v.push('/');
    v.push('/');
    v
}

fn host_header_name() -> (name: &'static str)
    ensures
        name@ == host_header(),
{
    proof {
        reveal_strlit("Host");
    }
    "Host"
}

fn parse_query_chars(query: &Vec<char>) -> (found: StringMap<String>)
    ensures
        found.text() == parse_query(query@),
{
    let pairs = split_chars(query, &one_char('&'));
    let equals = one_char('=');
    let mut found: StringMap<String> = StringMap::new();
    assert(found.text() =~= Map::<Seq<char>, Seq<char>>::empty());
    let mut i: usize = 0;
    while i < pairs.len()
        invariant
            i <= pairs.len(),
            equals@ == seq!['='],
            views(pairs@) == split(query@, seq!['&']),
            parse_query(query@) == scan_query(views(pairs@), i as int, found.text()),
        decreases pairs.len() - i,
    {
        let pieces = split_chars(&pairs[i], &equals);
        if pieces.len() == 2 {
            let key = from_chars(&pieces[0]);
            let value = from_chars(&pieces[1]);
            let ghost before = found.text();
            found.insert(key, value);
            assert(found.text() =~= before.insert(key@, value@));
        }
        i += 1;
    }
    found
}

fn parse_target_chars(target: &Vec<char>) -> (parts: (String, StringMap<String>, String))
    ensures
        parts.0@ == parse_target(target@).path,
        parts.1.text() == parse_target(target@).query,
        parts.2@ == parse_target(target@).host,
{
    let t = trim_chars(target);
    let (location, query) = match find_chars(&t, &one_char('?'), 0) {
        Some(q) => (slice_chars(&t, 0, q), slice_chars(&t, q + 1, t.len())),
        None => {
            let all = slice_chars(&t, 0, t.len());
            assert(all@ == t@);
            (all, Vec::new())
        },
    };
    let prefix = scheme_prefix_chars();
    let (url, host) = if matches_at(&location, &prefix, 0) {
        match find_chars(&location, &one_char('/'), prefix.len()) {
            Some(p) => (
                substring(&location, p, location.len()),
                substring(&location, prefix.len(), p),
            ),
            None => (String::new(), substring(&location, prefix.len(), location.len())),
        }
    } else {
        (from_chars(&location), String::new())
    };
    (url, parse_query_chars(&query), host)
}

fn parse_protocol_chars(word: &Vec<char>) -> (parts: Result<(String, String), ParseError>)
    ensures
        match parts {
            Ok((protocol, version)) => parse_protocol_word(word@) == Ok::<
                (Seq<char>, Seq<char>),
                ParseError,
            >((protocol@, version@)),
            Err(e) => parse_protocol_word(word@) == Err::<(Seq<char>, Seq<char>), ParseError>(e),
        },
{
    let pieces = split_chars(&trim_chars(word), &one_char('/'));
    if pieces.len() >= 2 {
        Ok((from_chars(&pieces[0]), from_chars(&pieces[1])))
    } else {
        Err(ParseError::MalformedRequestLine)
    }
}

/// What [`Request::parse_first_line`] hands back: method text, path, query,
/// protocol, protocol version and target host, in this order.
pub struct FirstLine {
    pub method: String,
    pub url: String,
    pub query: StringMap<String>,
    pub protocol: String,
    pub protocol_version: String,
    pub host: String,
}

impl FirstLine {
    /// The line as the grammar describes it.
    pub open spec fn model(&self) -> RequestLine {
        RequestLine {
            method: self.method@,
            target: Target { path: self.url@, query: self.query.text(), host: self.host@ },
            protocol: self.protocol@,
            protocol_version: self.protocol_version@,
        }
    }
}

fn parse_line_chars(line: &Vec<char>) -> (parsed: Result<FirstLine, ParseError>)
    ensures
        match parsed {
            Ok(first) => parse_request_line(line@) == Ok::<RequestLine, ParseError>(first.model()),
            Err(e) => parse_request_line(line@) == Err::<RequestLine, ParseError>(e),
        },
{
    let tokens = split_words(line);
    if tokens.len() < 3 {
        return Err(ParseError::MalformedRequestLine);
    }
    let method = from_chars(&tokens[0]);
    let (url, query, host) = parse_target_chars(&tokens[1]);
    match parse_protocol_chars(&tokens[2]) {
        Ok((protocol, protocol_version)) => Ok(
            FirstLine { method, url, query, protocol, protocol_version, host },
        ),
        Err(e) => Err(e),
    }
}

impl Request {
    /// What the parser read, as the grammar describes it.
    pub open spec fn message(&self) -> Message {
        Message {
            method: self.method,
            url: self.url@,
            query: self.query.text(),
            protocol: self.protocol@,
            protocol_version: self.protocol_version@,
            headers: self.headers.text(),
            host: option_text(self.host),
            body: self.body@,
        }
    }

    /// Parses the text of one HTTP message. The result is
    /// [`parse_request`] of the text: the request it describes, with no
    /// route parameters yet and with `options` attached, or the first error
    /// that the grammar finds.
    pub fn new(request: String, options: Options) -> (parsed: Result<Request, ParseError>)
        ensures
            match parsed {
                Ok(req) => parse_request(request@) == Ok::<Message, ParseError>(req.message())
                    && req.params@ == Map::<Seq<char>, String>::empty() && req.server_options
                    == options,
                Err(e) => parse_request(request@) == Err::<Message, ParseError>(e),
            },
    {
        let text = to_chars(request.as_str());
        let lines = split_chars(&text, &crlf_chars());
        let first = match parse_line_chars(&lines[0]) {
            Ok(first) => first,
            Err(e) => {
                return Err(e);
            },
        };
        let separator = header_separator_chars();
        let mut headers: StringMap<String> = StringMap::new();
        assert(headers.text() =~= Map::<Seq<char>, Seq<char>>::empty());
        let mut i: usize = 1;
        while i < lines.len() && lines[i].len() != 0
            invariant
                1 <= i,
                separator@ == header_separator(),
                views(lines@) == split(request@, crlf()),
                parse_request_line(views(lines@)[0]) is Ok,
                scan_headers(views(lines@), 1, Map::empty()) == scan_headers(
                    views(lines@),
                    i as int,
                    headers.text(),
                ),
            decreases lines.len() - i,
        {
            let pieces = split_chars(&lines[i], &separator);
            if pieces.len() != 2 {
                return Err(ParseError::MalformedHeader);
            }
            let name = from_chars(&pieces[0]);
            let value = from_chars(&pieces[1]);
            let ghost before = headers.text();
            headers.insert(name, value);
            assert(headers.text() =~= before.insert(name@, value@));
            i += 1;
        }
        let body = if i < lines.len() && i + 1 < lines.len() {
            from_chars(&lines[i + 1])
        } else {
            String::new()
        };
        let host = if first.host.as_str().unicode_len() > 0 {
            Some(first.host)
        } else {
            match headers.get(host_header_name()) {
                Some(value) => Some(value.clone()),
                None => None,
            }
        };
        let method = match HTTPMethod::parse(first.method.as_str()) {
            Some(method) => method,
            None => {
                return Err(ParseError::UnsupportedMethod);
            },
        };
        Ok(
            Request {
                url: first.url,
                body,
                query: first.query,
                params: StringMap::new(),
                headers,
                protocol: first.protocol,
                protocol_version: first.protocol_version,
                host,
                server_options: options,
                method,
            },
        )
    }

    /// Parses the first line of a message: see [`parse_request_line`].
    pub fn parse_first_line(first_line: &str) -> (parsed: Result<FirstLine, ParseError>)
        ensures
            match parsed {
                Ok(first) => parse_request_line(first_line@) == Ok::<RequestLine, ParseError>(
                    first.model(),
                ),
                Err(e) => parse_request_line(first_line@) == Err::<RequestLine, ParseError>(e),
            },
    {
        parse_line_chars(&to_chars(first_line))
    }

    /// Reads protocol name and version off the third word of the first line:
    /// see [`parse_protocol_word`]. Fewer than three words are an error.
    pub fn parse_protocol(first_line_parts: &Vec<String>) -> (parts: Result<
        (String, String),
        ParseError,
    >)
        ensures
            match parts {
                Ok((protocol, version)) => first_line_parts.len() >= 3 && parse_protocol_word(
                    first_line_parts[2]@,
                ) == Ok::<(Seq<char>, Seq<char>), ParseError>((protocol@, version@)),
                Err(e) => e == ParseError::MalformedRequestLine && (first_line_parts.len() < 3
                    || parse_protocol_word(first_line_parts[2]@) is Err),
            },
    {
        if first_line_parts.len() < 3 {
            return Err(ParseError::MalformedRequestLine);
        }
        parse_protocol_chars(&to_chars(first_line_parts[2].as_str()))
    }

    /// Reads path, query parameters and host off a request target: see
    /// [`parse_target`].
    pub fn parse_request_target(request_target: &str) -> (parts: (
        String,
        StringMap<String>,
        String,
    ))
        ensures
            parts.0@ == parse_target(request_target@).path,
            parts.1.text() == parse_target(request_target@).query,
            parts.2@ == parse_target(request_target@).host,
    {
        parse_target_chars(&to_chars(request_target))
    }
}

} // verus!
