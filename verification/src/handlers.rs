//! The routes of the file server: what each of them answers.
//!
//! Three routes answer from the request alone. The two file routes answer
//! from the request and from what reading or writing the file came to; the
//! reading and writing itself is the caller's part, and its outcome comes in
//! as a plain value.

use crate::request::Request;
use crate::response::{content_length_name, content_type_name, ContentType, HttpCode, Response};
use crate::server::{is_plain, HandlerError};
use crate::text::decimal;
use vstd::prelude::*;
use vstd::utf8::encode_utf8;

verus! {

/// What reading a file came to.
pub enum FileRead {
    /// The file was read; this is its content.
    Found(String),
    /// There is no such file.
    Missing,
    /// The file could not be read for any other reason.
    Failed,
}

/// The name of the parameter that holds the file name.
pub open spec fn filename_param() -> Seq<char> {
    "filename"@
}

/// The name of the parameter that `echo` sends back.
pub open spec fn content_param() -> Seq<char> {
    "content"@
}

/// The name of the header that `user_agent` sends back.
pub open spec fn user_agent_name() -> Seq<char> {
    "User-Agent"@
}

/// What `hello` says.
pub open spec fn hello_body() -> Seq<char> {
    "Hello, World!"@
}

/// The message for a request that lacks the parameter `name`.
pub open spec fn param_required_body(name: Seq<char>) -> Seq<char> {
    "{ \"message\": \"Param "@ + name + " is required\" }"@
}

/// The message for a file that does not exist.
pub open spec fn not_found_body(name: Seq<char>) -> Seq<char> {
    "{ \"message\": \"File not found: "@ + name + "\" }"@
}

/// The message for a failure on the server's side.
pub open spec fn internal_error_body() -> Seq<char> {
    "{ \"message\": \"Internal Server Error\" }"@
}

/// `response` answers `request` with `status` and the text `body`, labelled
/// as `media`: it speaks the request's protocol, its body is the UTF-8 form
/// of `body`, and its headers are `Content-Length`, the length of that body,
/// and `Content-Type`, and no others.
pub open spec fn is_answer(
    response: Response,
    request: Request,
    status: HttpCode,
    body: Seq<char>,
    media: ContentType,
) -> bool {
    &&& response.protocol@ == request.protocol@
    &&& response.protocol_version@ == request.protocol_version@
    &&& response.status == status
    &&& response.body@ == encode_utf8(body)
    &&& response.headers.text() == Map::<Seq<char>, Seq<char>>::empty().insert(
        content_length_name(),
        decimal(response.body@.len()),
    ).insert(content_type_name(), media.spec_text())
}

/// An answer gives its own length and media type: what stands under
/// `Content-Length` is the length of the body, and what stands under
/// `Content-Type` is the text of the media type.
pub proof fn lemma_answer_headers(
    response: Response,
    request: Request,
    status: HttpCode,
    body: Seq<char>,
    media: ContentType,
)
    requires
        is_answer(response, request, status, body, media),
    ensures
        response.headers.text()[content_length_name()] == decimal(response.body@.len()),
        response.headers.text()[content_type_name()] == media.spec_text(),
{
    reveal_strlit("Content-Length");
    reveal_strlit("Content-Type");
    assert("Content-Length"@.len() != "Content-Type"@.len());
}

fn answer(request: &Request, status: HttpCode, body: String, media: ContentType) -> (response:
    Response)
    ensures
        is_answer(response, *request, status, body@, media),
        response.headers.text()[content_length_name()] == decimal(response.body@.len()),
{
    let mut response = Response::for_request(request);
    response.set_body_string(body, Some(media));
    response.set_status(status);
    assert(response.headers.text() =~= Map::<Seq<char>, Seq<char>>::empty().insert(
        content_length_name(),
        decimal(response.body@.len()),
    ).insert(content_type_name(), media.spec_text()));
    proof {
        lemma_answer_headers(response, *request, status, body@, media);
    }
    response
}

fn param_required_text(name: &str) -> (text: String)
    ensures
        text@ == param_required_body(name@),
{
    "{ \"message\": \"Param ".to_owned().concat(name).concat(" is required\" }")
}

fn not_found_text(name: &str) -> (text: String)
    ensures
        text@ == not_found_body(name@),
{
    "{ \"message\": \"File not found: ".to_owned().concat(name).concat("\" }")
}

fn internal_error_text() -> (text: String)
    ensures
        text@ == internal_error_body(),
{
    "{ \"message\": \"Internal Server Error\" }".to_owned()
}

/// What `GET /` gets.
pub open spec fn hello_answers(request: Request, response: Response) -> bool {
    is_answer(response, request, HttpCode::OK, hello_body(), ContentType::TextPlain)
}

/// Answers `200 OK` with the plain text `Hello, World!`.
pub fn hello(request: &Request) -> (made: Result<Response, HandlerError>)
    ensures
        made matches Ok(response) && hello_answers(*request, response),
{
    Ok(answer(request, HttpCode::OK, "Hello, World!".to_owned(), ContentType::TextPlain))
}

/// What `GET /user-agent` gets: the value of the request's `User-Agent`
/// header as plain text, or an empty body where the request has none.
pub open spec fn user_agent_answers(request: Request, response: Response) -> bool {
    is_answer(
        response,
        request,
        HttpCode::OK,
        if request.headers.text().contains_key(user_agent_name()) {
            request.headers.text()[user_agent_name()]
        } else {
            Seq::empty()
        },
        ContentType::TextPlain,
    )
}

/// Answers `200 OK` with the request's `User-Agent`: see
/// [`user_agent_answers`].
pub fn user_agent(request: &Request) -> (made: Result<Response, HandlerError>)
    ensures
        made matches Ok(response) && user_agent_answers(*request, response),
{
    let body = match request.headers.get("User-Agent") {
        Some(agent) => agent.clone(),
        None => String::new(),
    };
    Ok(answer(request, HttpCode::OK, body, ContentType::TextPlain))
}

/// What `GET /echo/:content` gets: the parameter `content` as plain text, or
/// `400 Bad Request` with a message where the request has no such
/// parameter.
pub open spec fn echo_answers(request: Request, response: Response) -> bool {
    if request.params.text().contains_key(content_param()) {
        is_answer(
            response,
            request,
            HttpCode::OK,
            request.params.text()[content_param()],
            ContentType::TextPlain,
        )
    } else {
        is_answer(
            response,
            request,
            HttpCode::BadRequest,
            param_required_body(content_param()),
            ContentType::TextPlain,
        )
    }
}

/// Sends the parameter `content` back: see [`echo_answers`].
pub fn echo(request: &Request) -> (made: Result<Response, HandlerError>)
    ensures
        made matches Ok(response) && echo_answers(*request, response),
{
    match request.params.get("content") {
        Some(content) => Ok(
            answer(request, HttpCode::OK, content.clone(), ContentType::TextPlain),
        ),
        None => Ok(
            answer(
                request,
                HttpCode::BadRequest,
                param_required_text("content"),
                ContentType::TextPlain,
            ),
        ),
    }
}

/// What `GET /files/:filename` gets once the file has been looked for:
/// the file's content as `application/octet-stream`; for a file that does
/// not exist `404 Not Found` with a JSON body that names the file; after any
/// other failure `500 Internal Server Error` with a JSON body. A request
/// without the parameter gets `400 Bad Request`, whatever the reading came
/// to.
pub open spec fn file_read_answers(request: Request, read: FileRead, response: Response) -> bool {
    if request.params.text().contains_key(filename_param()) {
        match read {
            FileRead::Found(content) => is_answer(
                response,
                request,
                HttpCode::OK,
                content@,
                ContentType::OctetStream,
            ),
            FileRead::Missing => is_answer(
                response,
                request,
                HttpCode::NotFound,
                not_found_body(request.params.text()[filename_param()]),
                ContentType::Json,
            ),
            FileRead::Failed => is_answer(
                response,
                request,
                HttpCode::InternalServerError,
                internal_error_body(),
                ContentType::Json,
            ),
        }
    } else {
        is_answer(
            response,
            request,
            HttpCode::BadRequest,
            param_required_body(filename_param()),
            ContentType::TextPlain,
        )
    }
}

/// The answer to a request for a file, given what reading the file came to:
/// see [`file_read_answers`].
pub fn file_read_answer(request: &Request, read: FileRead) -> (response: Response)
    ensures
        file_read_answers(*request, read, response),
        response.protocol@ == request.protocol@,
        response.protocol_version@ == request.protocol_version@,
        response.headers.text()[content_length_name()] == decimal(response.body@.len()),
{
    match request.params.get("filename") {
        Some(filename) => match read {
            FileRead::Found(content) => answer(
                request,
                HttpCode::OK,
                content,
                ContentType::OctetStream,
            ),
            FileRead::Missing => answer(
                request,
                HttpCode::NotFound,
                not_found_text(filename.as_str()),
                ContentType::Json,
            ),
            FileRead::Failed => answer(
                request,
                HttpCode::InternalServerError,
                internal_error_text(),
                ContentType::Json,
            ),
        },
        None => answer(
            request,
            HttpCode::BadRequest,
            param_required_text("filename"),
            ContentType::TextPlain,
        ),
    }
}

/// What `POST /files/:filename` gets once the file has been written or not:
/// `201 Created` with an empty body after a write; `500 Internal Server
/// Error` with a JSON body after a failure. A request without the parameter
/// gets `400 Bad Request`, whatever the writing came to.
pub open spec fn file_write_answers(request: Request, written: bool, response: Response) -> bool {
    if request.params.text().contains_key(filename_param()) {
        if written {
            is_plain(response, request, HttpCode::Created)
        } else {
            is_answer(
                response,
                request,
                HttpCode::InternalServerError,
                internal_error_body(),
                ContentType::Json,
            )
        }
    } else {
        is_answer(
            response,
            request,
            HttpCode::BadRequest,
            param_required_body(filename_param()),
            ContentType::TextPlain,
        )
    }
}

/// The answer to a request to store a file, given whether the file was
/// written: see [`file_write_answers`].
pub fn file_write_answer(request: &Request, written: bool) -> (response: Response)
    ensures
        file_write_answers(*request, written, response),
        response.protocol@ == request.protocol@,
        response.protocol_version@ == request.protocol_version@,
        response.headers.text()[content_length_name()] == decimal(response.body@.len()),
{
    if request.params.contains_key("filename") {
        if written {
            let mut response = Response::for_request(request);
            response.set_status(HttpCode::Created);
            proof {
                reveal_strlit("Content-Length");
                reveal_strlit("Content-Type");
                assert("Content-Length"@.len() != "Content-Type"@.len());
            }
            response
        } else {
            answer(
                request,
                HttpCode::InternalServerError,
                internal_error_text(),
                ContentType::Json,
            )
        }
    } else {
        answer(
            request,
            HttpCode::BadRequest,
            param_required_text("filename"),
            ContentType::TextPlain,
        )
    }
}

} // verus!
