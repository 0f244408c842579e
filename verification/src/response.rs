//! The response builder: status, headers and body, and their form on the
//! wire.
//!
//! [`wire_format`] defines the bytes of a response. The `Content-Length`
//! line is written from the length of the body at that moment, whatever the
//! header map holds under that name, so it can never be stale.

use crate::request::Request;
use crate::string_map::{distinct_keys, has_key, StringMap};
use crate::text::{decimal, decimal_string, decimal_value, lemma_decimal_value};
use vstd::prelude::*;
use vstd::utf8::encode_utf8;

verus! {

/// The status codes that the server answers with.
#[derive(Debug, Clone, Copy, PartialEq, Eq, Structural)]
pub enum HttpCode {
    OK,
    Created,
    NotFound,
    BadRequest,
    InternalServerError,
}

impl HttpCode {
    /// Code and reason phrase as they stand in the status line.
    pub open spec fn spec_status_line(self) -> Seq<char> {
        match self {
            HttpCode::OK => "200 OK"@,
            HttpCode::NotFound => "404 Not Found"@,
            HttpCode::BadRequest => "400 Bad Request"@,
            HttpCode::InternalServerError => "500 Internal Server Error"@,
            HttpCode::Created => "201 Created"@,
        }
    }

    pub fn to_status_line(&self) -> (line: &'static str)
        ensures
            line@ == self.spec_status_line(),
    {
        match self {
            HttpCode::OK => "200 OK",
            HttpCode::NotFound => "404 Not Found",
            HttpCode::BadRequest => "400 Bad Request",
            HttpCode::InternalServerError => "500 Internal Server Error",
            HttpCode::Created => "201 Created",
        }
    }
}

/// The media types that a body can be labelled with.
#[derive(Debug, Clone, Copy, PartialEq, Eq, Structural)]
pub enum ContentType {
    Json,
    TextPlain,
    Multipart,
    UrlEncoded,
    OctetStream,
}

impl ContentType {
    /// The value of the `Content-Type` header for this media type.
    pub open spec fn spec_text(self) -> Seq<char> {
        match self {
            ContentType::Multipart => "multipart "@,
            ContentType::TextPlain => "text/plain"@,
            ContentType::Json => "application/json"@,
            ContentType::OctetStream => "application/octet-stream"@,
            ContentType::UrlEncoded => "application/x-www-form-urlencoded"@,
        }
    }

    pub fn text(&self) -> (text: &'static str)
        ensures
            text@ == self.spec_text(),
    {
        match self {
            ContentType::Multipart => "multipart ",
            ContentType::TextPlain => "text/plain",
            ContentType::Json => "application/json",
            ContentType::OctetStream => "application/octet-stream",
            ContentType::UrlEncoded => "application/x-www-form-urlencoded",
        }
    }
}

// ---------------------------------------------------------------------------
// The wire format
// ---------------------------------------------------------------------------

pub open spec fn content_length_name() -> Seq<char> {
    "Content-Length"@
}

pub open spec fn content_type_name() -> Seq<char> {
    "Content-Type"@
}

/// The bytes `\r\n`.
pub open spec fn crlf_bytes() -> Seq<u8> {
    seq![13u8, 10u8]
}

/// The value that goes on the wire for the header `name`: the length of the
/// body for `Content-Length`, the stored value for any other name.
pub open spec fn wire_value(name: Seq<char>, stored: Seq<char>, body_len: nat) -> Seq<char> {
    if name == content_length_name() {
        decimal(body_len)
    } else {
        stored
    }
}

/// The headers that go on the wire, in order: every stored entry with its
/// [`wire_value`], and a `Content-Length` entry at the end if none is stored.
pub open spec fn wire_headers(entries: Seq<(Seq<char>, String)>, body_len: nat) -> Seq<
    (Seq<char>, Seq<char>),
> {
    let stored = Seq::new(
        entries.len(),
        |i: int| (entries[i].0, wire_value(entries[i].0, entries[i].1@, body_len)),
    );
    if has_key(entries, content_length_name()) {
        stored
    } else {
        stored.push((content_length_name(), decimal(body_len)))
    }
}

/// One header on the wire: `Name: Value\r\n`.
pub open spec fn header_line(name: Seq<char>, value: Seq<char>) -> Seq<u8> {
    encode_utf8(name) + seq![58u8, 32u8] + encode_utf8(value) + crlf_bytes()
}

/// The lines of `headers`, one after the other.
pub open spec fn header_lines(headers: Seq<(Seq<char>, Seq<char>)>) -> Seq<u8>
    decreases headers.len(),
{
    if headers.len() == 0 {
        Seq::empty()
    } else {
        header_lines(headers.drop_last()) + header_line(headers.last().0, headers.last().1)
    }
}

/// The first line of a response: `PROTOCOL/VERSION CODE REASON\r\n`.
pub open spec fn status_line(protocol: Seq<char>, version: Seq<char>, status: HttpCode) -> Seq<u8> {
    encode_utf8(protocol) + seq![47u8] + encode_utf8(version) + seq![32u8] + encode_utf8(
        status.spec_status_line(),
    ) + crlf_bytes()
}

/// A response on the wire: status line, headers, an empty line, and the body
/// byte for byte.
pub open spec fn wire_format(response: Response) -> Seq<u8> {
    status_line(response.protocol@, response.protocol_version@, response.status) + header_lines(
        wire_headers(response.headers.entries(), response.body@.len()),
    ) + crlf_bytes() + response.body@
}

/// Every message has exactly one `Content-Length` header, and its value is
/// the length of the body in base ten.
pub proof fn law_content_length_is_body_length(entries: Seq<(Seq<char>, String)>, body_len: nat)
    requires
        distinct_keys(entries),
    ensures
        exists|i: int|
            0 <= i < wire_headers(entries, body_len).len() && (#[trigger] wire_headers(
                entries,
                body_len,
            )[i]).0 == content_length_name(),
        forall|i: int|
            0 <= i < wire_headers(entries, body_len).len() && (#[trigger] wire_headers(
                entries,
                body_len,
            )[i]).0 == content_length_name() ==> decimal_value(wire_headers(entries, body_len)[i].1)
                == body_len,
        forall|i: int, j: int|
            0 <= i < j < wire_headers(entries, body_len).len() ==> (#[trigger] wire_headers(
                entries,
                body_len,
            )[i]).0 != (#[trigger] wire_headers(entries, body_len)[j]).0,
{
    let wire = wire_headers(entries, body_len);
    lemma_decimal_value(body_len);
    if has_key(entries, content_length_name()) {
        let p = choose|i: int|
            0 <= i < entries.len() && (#[trigger] entries[i]).0 == content_length_name();
        assert(wire[p].0 == content_length_name());
    } else {
        assert(wire[entries.len() as int].0 == content_length_name());
    }
}

// ---------------------------------------------------------------------------
// The builder
// ---------------------------------------------------------------------------

/// A response under construction.
pub struct Response {
    pub body: Vec<u8>,
    pub status: HttpCode,
    pub protocol: String,
    pub protocol_version: String,
    pub headers: StringMap<String>,
}

fn content_length_header() -> (name: String)
    ensures
        name@ == content_length_name(),
{
    "Content-Length".to_owned()
}

fn content_type_header() -> (name: String)
    ensures
        name@ == content_type_name(),
{
    "Content-Type".to_owned()
}

fn push_bytes(out: &mut Vec<u8>, bytes: &[u8])
    ensures
        final(out)@ == old(out)@ + bytes@,
{
    let mut i: usize = 0;
    while i < bytes.len()
        invariant
            i <= bytes.len(),
            out@ == old(out)@ + bytes@.take(i as int),
        decreases bytes.len() - i,
    {
        out.push(bytes[i]);
        i += 1;
    }
}

fn push_crlf(out: &mut Vec<u8>)
    ensures
        final(out)@ == old(out)@ + crlf_bytes(),
{
    out.push(13u8);
    out.push(10u8);
}

fn push_header_line(out: &mut Vec<u8>, name: &str, value: &str)
    ensures
        final(out)@ == old(out)@ + header_line(name@, value@),
{
    push_bytes(out, name.as_bytes());
    out.push(58u8);
    out.push(32u8);
    push_bytes(out, value.as_bytes());
    push_crlf(out);
}

impl Response {
    /// A `200 OK` response with an empty body, `Content-Length: 0` and
    /// `Content-Type: text/plain`.
    pub fn new(protocol: String, protocol_version: String) -> (response: Response)
        ensures
            response.protocol == protocol,
            response.protocol_version == protocol_version,
            response.status == HttpCode::OK,
            response.body@ == Seq::<u8>::empty(),
            response.headers.text() == Map::<Seq<char>, Seq<char>>::empty().insert(
                content_length_name(),
                decimal(0),
            ).insert(content_type_name(), ContentType::TextPlain.spec_text()),
    {
        let mut headers: StringMap<String> = StringMap::new();
        let length = decimal_string(0);
        let media = ContentType::TextPlain.text().to_owned();
        headers.insert(content_length_header(), length);
        headers.insert(content_type_header(), media);
        Response { body: Vec::new(), headers, protocol, protocol_version, status: HttpCode::OK }
    }

    /// A fresh response that speaks the protocol of `request`.
    pub fn for_request(request: &Request) -> (response: Response)
        ensures
            response.protocol@ == request.protocol@,
            response.protocol_version@ == request.protocol_version@,
            response.status == HttpCode::OK,
            response.body@ == Seq::<u8>::empty(),
            response.headers.text() == Map::<Seq<char>, Seq<char>>::empty().insert(
                content_length_name(),
                decimal(0),
            ).insert(content_type_name(), ContentType::TextPlain.spec_text()),
    {
        Response::new(request.protocol.clone(), request.protocol_version.clone())
    }

    /// Sets the status and nothing else.
    pub fn set_status(&mut self, status: HttpCode)
        ensures
            final(self).status == status,
            final(self).body == old(self).body,
            final(self).headers == old(self).headers,
            final(self).protocol == old(self).protocol,
            final(self).protocol_version == old(self).protocol_version,
    {
        self.status = status;
    }

    /// Replaces the body by the bytes of `body` and labels it as JSON.
    pub fn set_json_body(&mut self, body: String)
        ensures
            final(self).body@ == encode_utf8(body@),
            final(self).headers.text() == old(self).headers.text().insert(
                content_length_name(),
                decimal(encode_utf8(body@).len()),
            ).insert(content_type_name(), ContentType::Json.spec_text()),
            final(self).status == old(self).status,
            final(self).protocol == old(self).protocol,
            final(self).protocol_version == old(self).protocol_version,
    {
        self.set_body_string(body, Some(ContentType::Json))
    }

    /// Replaces the body by the UTF-8 bytes of `body`: see [`Self::set_body`].
    pub fn set_body_string(&mut self, body: String, content_type: Option<ContentType>)
        ensures
            final(self).body@ == encode_utf8(body@),
            final(self).headers.text() == old(self).headers.text().insert(
                content_length_name(),
                decimal(encode_utf8(body@).len()),
            ).insert(
                content_type_name(),
                match content_type {
                    Some(media) => media.spec_text(),
                    None => ContentType::TextPlain.spec_text(),
                },
            ),
            final(self).status == old(self).status,
            final(self).protocol == old(self).protocol,
            final(self).protocol_version == old(self).protocol_version,
    {
        self.set_body(body.as_str().as_bytes_vec(), content_type)
    }

    /// Replaces the body, sets `Content-Length` to its length in base ten,
    /// and sets `Content-Type` to the given media type, or to `text/plain`
    /// when none is given.
    pub fn set_body(&mut self, body: Vec<u8>, content_type_option: Option<ContentType>)
        ensures
            final(self).body == body,
            final(self).headers.text() == old(self).headers.text().insert(
                content_length_name(),
                decimal(body@.len()),
            ).insert(
                content_type_name(),
                match content_type_option {
                    Some(media) => media.spec_text(),
                    None => ContentType::TextPlain.spec_text(),
                },
            ),
            final(self).status == old(self).status,
            final(self).protocol == old(self).protocol,
            final(self).protocol_version == old(self).protocol_version,
    {
        self.body = body;
        let content_length = self.body.len();
        self.set_header(content_length_header(), decimal_string(content_length));
        let content_type = match content_type_option {
            Some(media) => media,
            None => ContentType::TextPlain,
        };
        self.set_content_type(content_type);
    }

    /// Sets `Content-Type` to the text of `content_type`.
    pub fn set_content_type(&mut self, content_type: ContentType)
        ensures
            final(self).headers.text() == old(self).headers.text().insert(
                content_type_name(),
                content_type.spec_text(),
            ),
            final(self).body == old(self).body,
            final(self).status == old(self).status,
            final(self).protocol == old(self).protocol,
            final(self).protocol_version == old(self).protocol_version,
    {
        self.set_header(content_type_header(), content_type.text().to_owned());
    }

    /// Stores `header_value` under `header_name`, overwriting any value that
    /// the name had.
    pub fn set_header(&mut self, header_name: String, header_value: String)
        ensures
            final(self).headers@ == old(self).headers@.insert(header_name@, header_value),
            final(self).headers.text() == old(self).headers.text().insert(
                header_name@,
                header_value@,
            ),
            final(self).body == old(self).body,
            final(self).status == old(self).status,
            final(self).protocol == old(self).protocol,
            final(self).protocol_version == old(self).protocol_version,
    {
        self.headers.insert(header_name, header_value);
    }

    /// Replaces the body by `body`, if one is given, as [`Self::set_body`]
    /// does without a media type, and gives the response on the wire. This
    /// is all that sending a response takes but the writing itself.
    pub fn to_http_format_with(&mut self, body: Option<Vec<u8>>) -> (out: Vec<u8>)
        ensures
            match body {
                Some(bytes) => final(self).body == bytes && final(self).headers.text() == old(
                    self,
                ).headers.text().insert(content_length_name(), decimal(bytes@.len())).insert(
                    content_type_name(),
                    ContentType::TextPlain.spec_text(),
                ) && final(self).status == old(self).status && final(self).protocol == old(
                    self,
                ).protocol && final(self).protocol_version == old(self).protocol_version,
                None => *final(self) == *old(self),
            },
            out@ == wire_format(*final(self)),
    {
        match body {
            Some(bytes) => {
                self.set_body(bytes, None);
            },
            None => {},
        }
        self.to_http_format()
    }

    /// The response on the wire: exactly [`wire_format`]. Among its headers
    /// there is one `Content-Length`, and it gives the length of the body.
    pub fn to_http_format(&self) -> (out: Vec<u8>)
        ensures
            out@ == wire_format(*self),
            exists|i: int|
                0 <= i < wire_headers(self.headers.entries(), self.body@.len()).len() && (
                #[trigger] wire_headers(self.headers.entries(), self.body@.len())[i])
                    == (content_length_name(), decimal(self.body@.len())),
            forall|i: int|
                0 <= i < wire_headers(self.headers.entries(), self.body@.len()).len() && (
                #[trigger] wire_headers(self.headers.entries(), self.body@.len())[i]).0
                    == content_length_name() ==> wire_headers(
                    self.headers.entries(),
                    self.body@.len(),
                )[i].1 == decimal(self.body@.len()),
    {
        let ghost entries = self.headers.entries();
        let ghost wire = wire_headers(entries, self.body@.len());
        let length = decimal_string(self.body.len());
        let length_name = content_length_header();
        let mut out: Vec<u8> = Vec::new();
        push_bytes(&mut out, self.protocol.as_str().as_bytes());
        out.push(47u8);
        push_bytes(&mut out, self.protocol_version.as_str().as_bytes());
        out.push(32u8);
        push_bytes(&mut out, self.status.to_status_line().as_bytes());
        push_crlf(&mut out);
        let ghost head = status_line(self.protocol@, self.protocol_version@, self.status);
        let n = self.headers.len();
        let mut seen_length = false;
        let mut i: usize = 0;
        while i < n
            invariant
                i <= n,
                n == entries.len(),
                entries == self.headers.entries(),
                wire == wire_headers(entries, self.body@.len()),
                wire.len() >= n,
                length@ == decimal(self.body@.len()),
                length_name@ == content_length_name(),
                seen_length == (exists|j: int|
                    0 <= j < i && (#[trigger] entries[j]).0 == content_length_name()),
                out@ == head + header_lines(wire.take(i as int)),
            decreases n - i,
        {
            let name = self.headers.key_at(i);
            let value = self.headers.value_at(i);
            let is_length = *name == length_name;
            proof {
                assert(wire.take(i + 1).drop_last() =~= wire.take(i as int));
            }
            if is_length {
                push_header_line(&mut out, name.as_str(), length.as_str());
                seen_length = true;
            } else {
                push_header_line(&mut out, name.as_str(), value.as_str());
            }
            i += 1;
        }
        if !seen_length {
            push_header_line(&mut out, length_name.as_str(), length.as_str());
        } else {
            assert(wire.take(n as int) =~= wire);
            let ghost p = choose|j: int|
                0 <= j < n && (#[trigger] entries[j]).0 == content_length_name();
            assert(wire[p] == (content_length_name(), decimal(self.body@.len())));
        }
        push_crlf(&mut out);
        push_bytes(&mut out, self.body.as_slice());
        out
    }
}

} // verus!
