//! The connection handler: from the bytes read off a connection to the bytes
//! written back.
//!
//! Reading and writing the socket is the caller's part. Everything in
//! between is here: telling HTTP from other input, parsing, routing, filling
//! in the route parameters, running the handler, content-encoding
//! negotiation and serialisation.

use crate::options::Options;
use crate::request::{parse_request, Message, ParseError, Request};
use crate::response::{
    content_length_name, content_type_name, wire_format, ContentType, HttpCode, Response,
};
use crate::router::{reach, resolution, route_keys, RouteNode, Router};
use crate::string_map::{distinct_keys, entries_map, lemma_entries_take_step, StringMap};
use crate::text::{
    chars_eq, contains, contains_chars, decimal, find_chars, first_occurrence, split,
    split_chars, substring, to_chars, trim, trim_chars, views,
};
use flate2::write::GzEncoder;
use flate2::Compression;
use std::io::Write;
use vstd::prelude::*;
use vstd::slice::slice_subrange;
use vstd::utf8::encode_utf8;

verus! {

/// The number of bytes of a request that are looked at. A request that is
/// longer is cut off there; there is no second read.
pub const READ_LIMIT: usize = 1024;

/// What a handler reports when it fails.
#[derive(Debug)]
pub struct HandlerError {
    pub message: String,
}

/// Why a connection is given up without an answer.
#[derive(Debug, Clone, Copy, PartialEq, Eq, Structural)]
pub enum ServeError {
    /// The request could not be parsed.
    Parse(ParseError),
    /// The body could not be compressed.
    Compression,
}

// ---------------------------------------------------------------------------
// Outside work
// ---------------------------------------------------------------------------

/// `std::io::Error`, the failure that the gzip encoder may report. Nothing
/// inside it is visible here.
#[verifier::external_type_specification]
#[verifier::external_body]
pub struct ExIoError(std::io::Error);

/// The text that `bytes` decode to as UTF-8, each malformed sequence giving
/// the replacement character U+FFFD.
pub uninterp spec fn lossy_text(bytes: Seq<u8>) -> Seq<char>;

/// The gzip stream that holds `content`, as the encoder writes it at its
/// default level and with an empty header, or `None` where the encoder
/// reports an error.
pub uninterp spec fn gzip_encoding(content: Seq<u8>) -> Option<Seq<u8>>;

/// `String::from_utf8_lossy`: the result is the text named [`lossy_text`].
#[verifier::external_body]
fn decode_lossy(bytes: &[u8]) -> (text: String)
    ensures
        text@ == lossy_text(bytes@),
{
    String::from_utf8_lossy(bytes).into_owned()
}

/// `flate2::write::GzEncoder` at `Compression::default()`, writing into a
/// vector, fed all of `content` (`write_all`) and finished (`finish`): the
/// result is what [`gzip_encoding`] names, the stream or the failure.
#[verifier::external_body]
fn encode_gzip(content: &Vec<u8>) -> (encoded: Result<Vec<u8>, std::io::Error>)
    ensures
        match encoded {
            Ok(bytes) => gzip_encoding(content@) == Some(bytes@),
            Err(_) => gzip_encoding(content@) is None,
        },
{
    let mut encoder = GzEncoder::new(Vec::new(), Compression::default());
    encoder.write_all(content)?;
    encoder.finish()
}

// ---------------------------------------------------------------------------
// Telling HTTP from other input
// ---------------------------------------------------------------------------

/// The part of the input that is looked at: its first [`READ_LIMIT`] bytes.
pub open spec fn read_window(raw: Seq<u8>) -> Seq<u8> {
    if raw.len() > READ_LIMIT {
        raw.take(READ_LIMIT as int)
    } else {
        raw
    }
}

/// The text of a request: what its [`read_window`] decodes to.
pub open spec fn request_text(raw: Seq<u8>) -> Seq<char> {
    lossy_text(read_window(raw))
}

/// The token that every HTTP/1.x message holds.
pub open spec fn http_token() -> Seq<char> {
    seq!['H', 'T', 'T', 'P', '/', '1', '.']
}

/// What is written back where the input holds no [`http_token`]: a bare
/// status line.
pub open spec fn rejection() -> Seq<u8> {
    encode_utf8("HTTP/1.1 500 Internal Server Error\r\n\r\n"@)
}

fn http_token_chars() -> (token: Vec<char>)
    ensures
        token@ == http_token(),
{
    let mut token: Vec<char> = Vec::new();
    token.push('H');
    token.push('T');
    token.push('T');
    token.push('P');
    token.push('/');
    token.push('1');
    token.push('.');
    token
}

// ---------------------------------------------------------------------------
// Route parameters
// ---------------------------------------------------------------------------

/// The value of the parameter that is expected at `offset`: the characters
/// of `url` from `offset` up to the next `/`, or to the end where none
/// follows. An offset beyond the end gives the empty value.
pub open spec fn param_value(url: Seq<char>, offset: int) -> Seq<char> {
    if 0 <= offset <= url.len() {
        match first_occurrence(url, seq!['/'], offset) {
            Some(end) => url.subrange(offset, end),
            None => url.subrange(offset, url.len() as int),
        }
    } else {
        Seq::empty()
    }
}

/// In a path without `/` from `i` on, no `/` is found from `i` on.
proof fn lemma_no_slash_found(url: Seq<char>, i: int)
    requires
        0 <= i <= url.len(),
        forall|j: int| i <= j < url.len() ==> url[j] != '/',
    ensures
        first_occurrence(url, seq!['/'], i) is None,
    decreases url.len() - i,
{
    if i + 1 <= url.len() {
        assert(url.subrange(i, i + 1)[0] == url[i]);
        lemma_no_slash_found(url, i + 1);
    }
}

/// The first `/` at or after `i` is found where it stands.
proof fn lemma_slash_found(url: Seq<char>, i: int, end: int)
    requires
        0 <= i <= end < url.len(),
        url[end] == '/',
        forall|j: int| i <= j < end ==> url[j] != '/',
    ensures
        first_occurrence(url, seq!['/'], i) == Some(end),
    decreases end - i,
{
    if i < end {
        assert(url.subrange(i, i + 1)[0] == url[i]);
        lemma_slash_found(url, i + 1, end);
    } else {
        assert(url.subrange(end, end + 1) =~= seq!['/']);
    }
}

/// A parameter's value is one whole path segment and no more. Where a path
/// consists of `before`, then the segment `value`, then `after`, which is
/// empty or begins with `/`, the parameter expected at the offset at which
/// `value` begins has exactly the value `value`: whatever follows the
/// segment is cut off.
pub proof fn law_param_value_is_one_segment(before: Seq<char>, value: Seq<char>, after: Seq<char>)
    requires
        forall|j: int| 0 <= j < value.len() ==> value[j] != '/',
        after.len() == 0 || after[0] == '/',
    ensures
        param_value(before + value + after, before.len() as int) == value,
{
    let url = before + value + after;
    let start = before.len() as int;
    let end = start + value.len();
    assert(forall|j: int| start <= j < end ==> url[j] == value[j - start]);
    if after.len() == 0 {
        lemma_no_slash_found(url, start);
    } else {
        lemma_slash_found(url, start, end);
    }
}

/// The values of all parameters of a route, read off `url`.
pub open spec fn param_values(url: Seq<char>, offsets: Map<Seq<char>, usize>) -> Map<
    Seq<char>,
    Seq<char>,
> {
    Map::new(
        |name: Seq<char>| offsets.contains_key(name),
        |name: Seq<char>| param_value(url, offsets[name] as int),
    )
}

/// Computes [`param_value`].
pub fn read_param(url: &Vec<char>, offset: usize) -> (value: String)
    ensures
        value@ == param_value(url@, offset as int),
{
    if offset > url.len() {
        return String::new();
    }
    let mut slash: Vec<char> = Vec::new();
    slash.push('/');
    match find_chars(url, &slash, offset) {
        Some(end) => substring(url, offset, end),
        None => substring(url, offset, url.len()),
    }
}

/// Fills in the parameters of `request` from the offsets of its route: each
/// name gets its [`param_value`] in the request's path.
pub fn fill_params(request: &mut Request, offsets: &StringMap<usize>)
    ensures
        final(request).params.text() == old(request).params.text().union_prefer_right(
            param_values(old(request).url@, offsets@),
        ),
        final(request).message() == old(request).message(),
        final(request).server_options == old(request).server_options,
{
    let url = to_chars(request.url.as_str());
    let n = offsets.len();
    let ghost entries = offsets.entries();
    let ghost before = request.params.text();
    let mut i: usize = 0;
    while i < n
        invariant
            i <= n,
            n == entries.len(),
            entries == offsets.entries(),
            distinct_keys(entries),
            url@ == old(request).url@,
            request.message() == old(request).message(),
            request.server_options == old(request).server_options,
            request.params.text() == before.union_prefer_right(
                param_values(url@, entries_map(entries.take(i as int))),
            ),
        decreases n - i,
    {
        let name = offsets.key_at(i).clone();
        let value = read_param(&url, *offsets.value_at(i));
        proof {
            lemma_entries_take_step(entries, i as int);
            assert(before.union_prefer_right(
                param_values(url@, entries_map(entries.take(i as int))),
            ).insert(name@, value@) =~= before.union_prefer_right(
                param_values(url@, entries_map(entries.take(i + 1))),
            ));
        }
        request.params.insert(name, value);
        i += 1;
    }
    assert(entries.take(n as int) =~= entries);
}

// ---------------------------------------------------------------------------
// Running the handler
// ---------------------------------------------------------------------------

/// `response` is the fresh response to `request` with the given status:
/// the request's protocol, an empty body, `Content-Length: 0` and
/// `Content-Type: text/plain`.
pub open spec fn is_plain(response: Response, request: Request, status: HttpCode) -> bool {
    &&& response.protocol@ == request.protocol@
    &&& response.protocol_version@ == request.protocol_version@
    &&& response.status == status
    &&& response.body@ == Seq::<u8>::empty()
    &&& response.headers.text() == Map::<Seq<char>, Seq<char>>::empty().insert(
        content_length_name(),
        decimal(0),
    ).insert(content_type_name(), ContentType::TextPlain.spec_text())
}

/// `response` is what a request gets whose handler gave `outcome`, or that
/// had no handler: without a handler a plain `404 Not Found`, after a
/// failure a plain `500 Internal Server Error`, and after success the
/// response that the handler made.
pub open spec fn settles(
    request: Request,
    outcome: Option<Result<Response, HandlerError>>,
    response: Response,
) -> bool {
    match outcome {
        None => is_plain(response, request, HttpCode::NotFound),
        Some(Err(_)) => is_plain(response, request, HttpCode::InternalServerError),
        Some(Ok(made)) => response == made,
    }
}

/// Turns the outcome of a handler into a response: see [`settles`].
pub fn settle(request: &Request, outcome: Option<Result<Response, HandlerError>>) -> (response:
    Response)
    ensures
        settles(*request, outcome, response),
{
    match outcome {
        None => {
            let mut response = Response::for_request(request);
            response.set_status(HttpCode::NotFound);
            response
        },
        Some(Err(_)) => {
            let mut response = Response::for_request(request);
            response.set_status(HttpCode::InternalServerError);
            response
        },
        Some(Ok(made)) => made,
    }
}

/// `handler` can be run on `request`.
pub open spec fn accepts<H: Fn(&Request) -> Result<Response, HandlerError>>(
    handler: H,
    request: Request,
) -> bool {
    call_requires(handler, (&request,))
}

/// Every handler of `routes` can be run on every request.
pub open spec fn handlers_accept_all<H: Fn(&Request) -> Result<Response, HandlerError>>(
    routes: Map<Seq<Seq<char>>, RouteNode<H>>,
) -> bool {
    forall|p: Seq<Seq<char>>, method: Seq<char>, request: Request|
        routes.contains_key(p) && routes[p].handlers.contains_key(method) ==> #[trigger] accepts(
            routes[p].handlers[method],
            request,
        )
}

/// `outcome` is something that `handler` may give for `request`.
pub open spec fn may_give<H: Fn(&Request) -> Result<Response, HandlerError>>(
    handler: H,
    request: Request,
    outcome: Result<Response, HandlerError>,
) -> bool {
    call_ensures(handler, (&request,), outcome)
}

/// `request` has been routed and `response` is the answer to it: where the
/// lookup gives no handler, the parameters are untouched and the answer is
/// a plain 404; where it gives one, the parameters of the route have been
/// filled in and the answer is settled from something that the handler may
/// give for the request in that state.
pub open spec fn dispatched<H: Fn(&Request) -> Result<Response, HandlerError>>(
    routes: Map<Seq<Seq<char>>, RouteNode<H>>,
    before: Request,
    after: Request,
    response: Response,
) -> bool {
    let found = resolution(routes, before.method, before.url@);
    &&& after.message() == before.message()
    &&& after.server_options == before.server_options
    &&& found.0 is None ==> after.params.text() == before.params.text() && settles(
        after,
        None,
        response,
    )
    &&& found.0 matches Some(handler) ==> after.params.text()
        == before.params.text().union_prefer_right(param_values(before.url@, found.1))
        && exists|outcome: Result<Response, HandlerError>| #[trigger]
        may_give(handler, after, outcome) && settles(after, Some(outcome), response)
}

/// Routes `request`, fills in its parameters, runs the handler and settles
/// the answer: see [`dispatched`].
pub fn dispatch<H: Fn(&Request) -> Result<Response, HandlerError>>(
    router: &Router<H>,
    request: &mut Request,
) -> (response: Response)
    requires
        handlers_accept_all(router@),
    ensures
        dispatched(router@, *old(request), *final(request), response),
{
    let (handler, offsets) = router.get_handler(&request.method, request.url.as_str());
    match handler {
        None => settle(request, None),
        Some(handler) => {
            fill_params(request, offsets);
            proof {
                let at = reach(router@, Seq::empty(), route_keys(old(request).url@), 0).0;
                assert(accepts(router@[at].handlers[old(request).method.spec_text()], *request));
            }
            let outcome = handler(&*request);
            let ghost given = outcome;
            let response = settle(request, Some(outcome));
            proof {
                let found = resolution(router@, old(request).method, old(request).url@);
                assert(may_give(found.0->0, *request, given));
            }
            response
        },
    }
}

// ---------------------------------------------------------------------------
// Content-encoding negotiation
// ---------------------------------------------------------------------------

pub open spec fn accept_encoding_name() -> Seq<char> {
    "Accept-Encoding"@
}

pub open spec fn content_encoding_name() -> Seq<char> {
    "Content-Encoding"@
}

pub open spec fn gzip_name() -> Seq<char> {
    seq!['g', 'z', 'i', 'p']
}

/// One of the comma-separated entries of `header` is, once trimmed, `gzip`.
pub open spec fn accepts_gzip(header: Seq<char>) -> bool {
    exists|i: int|
        0 <= i < split(header, seq![',']).len() && trim(#[trigger] split(header, seq![','])[i])
            == gzip_name()
}

/// The response is to be compressed: it has a body, and the request's
/// `Accept-Encoding` header names gzip.
pub open spec fn wants_gzip(request: Request, response: Response) -> bool {
    &&& response.body@.len() > 0
    &&& request.headers.text().contains_key(accept_encoding_name())
    &&& accepts_gzip(request.headers.text()[accept_encoding_name()])
}

/// `after` is `before` with its body replaced by the compressed bytes
/// `compressed`: the body is replaced as by [`Response::set_body`] without
/// a media type, and `Content-Encoding` is `gzip`.
pub open spec fn gzipped(before: Response, after: Response, compressed: Seq<u8>) -> bool {
    &&& after.body@ == compressed
    &&& after.headers.text() == before.headers.text().insert(
        content_length_name(),
        decimal(compressed.len()),
    ).insert(content_type_name(), ContentType::TextPlain.spec_text()).insert(
        content_encoding_name(),
        gzip_name(),
    )
    &&& after.status == before.status
    &&& after.protocol == before.protocol
    &&& after.protocol_version == before.protocol_version
}

/// Decides [`accepts_gzip`].
pub fn names_gzip(header: &str) -> (named: bool)
    ensures
        named == accepts_gzip(header@),
{
    let mut comma: Vec<char> = Vec::new();
    comma.push(',');
    let mut gzip: Vec<char> = Vec::new();
    gzip.push('g');
    gzip.push('z');
    gzip.push('i');
    gzip.push('p');
    let entries = split_chars(&to_chars(header), &comma);
    let mut i: usize = 0;
    while i < entries.len()
        invariant
            i <= entries.len(),
            gzip@ == gzip_name(),
            views(entries@) == split(header@, seq![',']),
            forall|j: int|
                0 <= j < i ==> trim(#[trigger] split(header@, seq![','])[j]) != gzip_name(),
        decreases entries.len() - i,
    {
        assert(views(entries@)[i as int] == entries@[i as int]@);
        if chars_eq(&trim_chars(&entries[i]), &gzip) {
            return true;
        }
        i += 1;
    }
    false
}

/// Puts the compressed bytes in place of the body: see [`gzipped`].
pub fn apply_gzip(response: &mut Response, compressed: Vec<u8>)
    ensures
        gzipped(*old(response), *final(response), compressed@),
{
    response.set_body(compressed, None);
    let name: String = "Content-Encoding".to_owned();
    let value: String = "gzip".to_owned();
    proof {
        reveal_strlit("gzip");
        assert(value@ =~= gzip_name());
    }
    response.set_header(name, value);
}

/// What [`encode_response`] does to a response: where [`wants_gzip`] holds,
/// the body is replaced by its gzip stream ([`gzipped`]), or, where the
/// encoder fails, the failure is reported and the response left alone;
/// where it does not hold, the response is left alone.
pub open spec fn encodes(
    request: Request,
    before: Response,
    after: Response,
    outcome: Result<(), ServeError>,
) -> bool {
    if wants_gzip(request, before) {
        match gzip_encoding(before.body@) {
            Some(compressed) => outcome is Ok && gzipped(before, after, compressed),
            None => outcome == Err::<(), ServeError>(ServeError::Compression) && after == before,
        }
    } else {
        outcome is Ok && after == before
    }
}

/// Compresses the body of `response` where the request asks for it: see
/// [`encodes`].
pub fn encode_response(request: &Request, response: &mut Response) -> (outcome: Result<
    (),
    ServeError,
>)
    ensures
        encodes(*request, *old(response), *final(response), outcome),
{
    if response.body.len() == 0 {
        return Ok(());
    }
    let name: &str = "Accept-Encoding";
    match request.headers.get(name) {
        None => Ok(()),
        Some(accepted) => {
            if names_gzip(accepted.as_str()) {
                match encode_gzip(&response.body) {
                    Ok(compressed) => {
                        apply_gzip(response, compressed);
                        Ok(())
                    },
                    Err(_) => Err(ServeError::Compression),
                }
            } else {
                Ok(())
            }
        },
    }
}

// ---------------------------------------------------------------------------
// One connection
// ---------------------------------------------------------------------------

/// The steps from a parsed request to the end of its connection: `before`
/// is the request as parsed, `after` the request once routed, `handled` the
/// answer that routing and handler gave ([`dispatched`]), and `response`
/// that answer once [`encode_response`] has seen it, with `outcome`.
pub open spec fn served<H: Fn(&Request) -> Result<Response, HandlerError>>(
    routes: Map<Seq<Seq<char>>, RouteNode<H>>,
    parsed: Message,
    options: Options,
    before: Request,
    after: Request,
    handled: Response,
    response: Response,
    outcome: Result<(), ServeError>,
) -> bool {
    &&& before.message() == parsed
    &&& before.params.text() == Map::<Seq<char>, Seq<char>>::empty()
    &&& before.server_options == options
    &&& dispatched(routes, before, after, handled)
    &&& encodes(after, handled, response, outcome)
}

/// `response` answers the request that `parsed` describes: there are steps
/// as [`served`] describes them that lead to it without failure.
pub open spec fn answers<H: Fn(&Request) -> Result<Response, HandlerError>>(
    routes: Map<Seq<Seq<char>>, RouteNode<H>>,
    parsed: Message,
    options: Options,
    response: Response,
) -> bool {
    exists|before: Request, after: Request, handled: Response| #[trigger]
        served(routes, parsed, options, before, after, handled, response, Ok(()))
}

/// The request that `parsed` describes gets no answer because its body
/// could not be compressed: there are steps as [`served`] describes them
/// that end in that failure.
pub open spec fn fails_to_encode<H: Fn(&Request) -> Result<Response, HandlerError>>(
    routes: Map<Seq<Seq<char>>, RouteNode<H>>,
    parsed: Message,
    options: Options,
) -> bool {
    exists|before: Request, after: Request, handled: Response| #[trigger]
        served(
            routes,
            parsed,
            options,
            before,
            after,
            handled,
            handled,
            Err(ServeError::Compression),
        )
}

/// A request that no route answers gets `404 Not Found`: where the lookup of
/// the request's method and path gives no handler, the answer is a plain
/// 404 with an empty body, whatever the request's headers ask for.
pub proof fn law_unrouted_request_is_not_found<H: Fn(&Request) -> Result<Response, HandlerError>>(
    routes: Map<Seq<Seq<char>>, RouteNode<H>>,
    parsed: Message,
    options: Options,
    response: Response,
)
    requires
        answers(routes, parsed, options, response),
        resolution(routes, parsed.method, parsed.url).0 is None,
    ensures
        response.status == HttpCode::NotFound,
        response.body@ == Seq::<u8>::empty(),
{
    let (before, after, handled) = choose|before: Request, after: Request, handled: Response| #[trigger]
        served(routes, parsed, options, before, after, handled, response, Ok(()));
    // without a handler the answer is the plain 404, which has no body to
    // compress
    assert(settles(after, None, handled));
    assert(response == handled);
}

/// A handler that fails gets `500 Internal Server Error`: where the lookup
/// gives a handler and every outcome of that handler is a failure, the
/// answer is a plain 500 with an empty body.
pub proof fn law_failing_handler_is_internal_error<
    H: Fn(&Request) -> Result<Response, HandlerError>,
>(
    routes: Map<Seq<Seq<char>>, RouteNode<H>>,
    parsed: Message,
    options: Options,
    response: Response,
)
    requires
        answers(routes, parsed, options, response),
        resolution(routes, parsed.method, parsed.url).0 matches Some(handler) && forall|
            request: Request,
            outcome: Result<Response, HandlerError>,
        | #[trigger] may_give(handler, request, outcome) ==> outcome is Err,
    ensures
        response.status == HttpCode::InternalServerError,
        response.body@ == Seq::<u8>::empty(),
{
    let (before, after, handled) = choose|before: Request, after: Request, handled: Response| #[trigger]
        served(routes, parsed, options, before, after, handled, response, Ok(()));
    let handler = resolution(routes, parsed.method, parsed.url).0->0;
    let outcome = choose|outcome: Result<Response, HandlerError>| #[trigger]
        may_give(handler, after, outcome) && settles(after, Some(outcome), handled);
    // the handler failed, so the answer is the plain 500, which has no body
    // to compress
    assert(outcome is Err);
    assert(response == handled);
}

/// A handler's answer goes out as the handler made it: where the lookup
/// gives a handler and the answer is not to be compressed, the response is
/// one that the handler may have made for the request, or the plain 500
/// that stands for its failure.
pub proof fn law_answer_is_the_handlers<H: Fn(&Request) -> Result<Response, HandlerError>>(
    routes: Map<Seq<Seq<char>>, RouteNode<H>>,
    parsed: Message,
    options: Options,
    response: Response,
)
    requires
        answers(routes, parsed, options, response),
        resolution(routes, parsed.method, parsed.url).0 is Some,
        !parsed.headers.contains_key(accept_encoding_name()),
    ensures
        exists|request: Request, outcome: Result<Response, HandlerError>|
            #![trigger may_give(resolution(routes, parsed.method, parsed.url).0->0, request, outcome)]
            {
                &&& request.message() == parsed
                &&& request.params.text() == param_values(
                    parsed.url,
                    resolution(routes, parsed.method, parsed.url).1,
                )
                &&& may_give(
                    resolution(routes, parsed.method, parsed.url).0->0,
                    request,
                    outcome,
                )
                &&& settles(request, Some(outcome), response)
            },
{
    let (before, after, handled) = choose|before: Request, after: Request, handled: Response| #[trigger]
        served(routes, parsed, options, before, after, handled, response, Ok(()));
    let handler = resolution(routes, parsed.method, parsed.url).0->0;
    let outcome = choose|outcome: Result<Response, HandlerError>| #[trigger]
        may_give(handler, after, outcome) && settles(after, Some(outcome), handled);
    // nothing asks for compression, so the routed request and the handler's
    // outcome are the witnesses
    assert(response == handled);
    assert(may_give(handler, after, outcome) && settles(after, Some(outcome), response));
}

/// Serves one connection: `raw` holds the bytes that were read, the result
/// the bytes to write back. Of `raw` only the first [`READ_LIMIT`] bytes
/// count.
///
/// Input without the token `HTTP/1.` is answered by the bare status line
/// [`rejection`] and not looked at further. Any other input is parsed, and
/// a parse error ends the connection without an answer. A parsed request
/// is answered as [`answers`] says, and the result is that answer in
/// [`wire_format`]. Where the body was to be compressed and the encoder
/// failed ([`fails_to_encode`]), the connection ends without an answer.
pub fn handle_connection<H: Fn(&Request) -> Result<Response, HandlerError>>(
    raw: &[u8],
    router: &Router<H>,
    options: Options,
) -> (written: Result<Vec<u8>, ServeError>)
    requires
        handlers_accept_all(router@),
    ensures
        match written {
            Ok(bytes) => if contains(request_text(raw@), http_token()) {
                parse_request(request_text(raw@)) matches Ok(parsed) && exists|response: Response|
                    #![trigger wire_format(response)]
                    answers(router@, parsed, options, response) && bytes@ == wire_format(response)
            } else {
                bytes@ == rejection()
            },
            Err(ServeError::Parse(e)) => contains(request_text(raw@), http_token())
                && parse_request(request_text(raw@)) == Err::<Message, ParseError>(e),
            Err(ServeError::Compression) => contains(request_text(raw@), http_token()) && (
            parse_request(request_text(raw@)) matches Ok(parsed) && fails_to_encode(
                router@,
                parsed,
                options,
            )),
        },
{
    let window = if raw.len() > READ_LIMIT {
        slice_subrange(raw, 0, READ_LIMIT)
    } else {
        raw
    };
    let text = decode_lossy(window);
    if !contains_chars(&to_chars(text.as_str()), &http_token_chars()) {
        let line: &str = "HTTP/1.1 500 Internal Server Error\r\n\r\n";
        return Ok(line.as_bytes_vec());
    }
    let mut request = match Request::new(text, options) {
        Ok(request) => request,
        Err(e) => {
            return Err(ServeError::Parse(e));
        },
    };
    let ghost before = request;
    assert(before.params.text() =~= Map::<Seq<char>, Seq<char>>::empty());
    let mut response = dispatch(router, &mut request);
    let ghost handled = response;
    match encode_response(&request, &mut response) {
        Ok(()) => {},
        Err(e) => {
            proof {
                assert(served(
                    router@,
                    before.message(),
                    options,
                    before,
                    request,
                    handled,
                    handled,
                    Err(ServeError::Compression),
                ));
            }
            return Err(e);
        },
    }
    let bytes = response.to_http_format();
    proof {
        assert(served(
            router@,
            before.message(),
            options,
            before,
            request,
            handled,
            response,
            Ok(()),
        ));
    }
    Ok(bytes)
}

} // verus!
