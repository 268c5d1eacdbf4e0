//! Serving one connection: from the bytes that came to what has to be done
//! and sent back.
//!
//! Nothing here touches a socket or a file. Where a file has to be read or
//! written, `dispatch` says so, and the answer is made from what the
//! reading or writing gave.

use crate::chars::{
    decimal, eq_ignoring_case, same_ignoring_case, to_decimal, unpadded_len, without_padding,
};
use crate::compress::{gzip_outcome, handle_compression};
use crate::error::ServerError;
use crate::headers::{distinct_names, has_name, header_block, lemma_slot_is, value_of, Field};
use crate::request::{parsed, Request, RequestMethod, RequestView};
use crate::response::{body_text, wire_text, Response, ResponseView};
use crate::router::{lemma_route_order, route, route_of, Route};
use crate::status::{code_of, HttpStatus};
use crate::text::{chars_of, copy_range, crlf, occurs_at, pieces, rows, split, string_of};
use vstd::prelude::*;
use vstd::string::*;
use vstd::utf8::*;

verus! {

/// `core::str::Utf8Error`, the error of `core::str::from_utf8`. Nothing is
/// said of what it holds.
#[verifier::external_type_specification]
#[verifier::external_body]
pub struct ExUtf8Error(core::str::Utf8Error);

/// `core::str::from_utf8` succeeds exactly when `v` is valid UTF-8, and the
/// text that it then gives has `v` as its bytes.
pub assume_specification[ core::str::from_utf8 ](v: &[u8]) -> (out: Result<
    &str,
    core::str::Utf8Error,
>)
    ensures
        out is Ok <==> valid_utf8(v@),
        out matches Ok(s) ==> s.spec_bytes() == v@,
;

/// An answer: a response, and the bytes that are sent after its text.
pub ghost struct ReplyView {
    pub response: ResponseView,
    pub payload: Seq<u8>,
}

/// The bytes that go over the wire for an answer.
pub open spec fn reply_bytes(reply: ReplyView) -> Seq<u8> {
    encode_utf8(wire_text(reply.response)) + reply.payload
}

/// What has to be done for a request.
pub ghost enum ActionView {
    /// Send this answer.
    Respond(ReplyView),
    /// Read the file at `path`, and answer with `reply_file`.
    ReadFile { path: Seq<char> },
    /// Write `contents` to the file at `path`, and answer with `reply_written`.
    WriteFile { path: Seq<char>, contents: Seq<char> },
}

/// The answer that holds a status and nothing else.
pub open spec fn answer_bare(status: HttpStatus) -> ReplyView {
    ReplyView {
        response: ResponseView { status, headers: Seq::empty(), body: None },
        payload: Seq::empty(),
    }
}

/// The header fields that describe a body: its type and its length in bytes.
pub open spec fn describing(content_type: Seq<char>, length: nat) -> Seq<Field> {
    seq![("Content-Type"@, content_type), ("Content-Length"@, decimal(length))]
}

/// The answer that carries `body` as text of the given type.
pub open spec fn answer_text(body: Seq<char>, content_type: Seq<char>) -> ReplyView {
    ReplyView {
        response: ResponseView {
            status: HttpStatus::Okay,
            headers: describing(content_type, encode_utf8(body).len()),
            body: Some(body),
        },
        payload: Seq::empty(),
    }
}

/// The answer that carries a gzip stream: the response has no body of its
/// own, names the encoding, and gives the length of the stream.
pub open spec fn answer_gzip(stream: Seq<u8>) -> ReplyView {
    ReplyView {
        response: ResponseView {
            status: HttpStatus::Okay,
            headers: seq![("Content-Encoding"@, "gzip"@)] + describing(
                "text/plain"@,
                stream.len(),
            ),
            body: None,
        },
        payload: stream,
    }
}

/// The answer to the reading of a file: its contents, or `NotFound` where
/// it could not be read.
pub open spec fn answer_file(contents: Option<Seq<char>>) -> ReplyView {
    match contents {
        Some(c) => answer_text(c, "application/octet-stream"@),
        None => answer_bare(HttpStatus::NotFound),
    }
}

/// The list of encodings names gzip, whatever the case of its letters.
pub open spec fn offers_gzip(encodings: Seq<char>) -> bool {
    let offered = pieces(encodings, seq![',', ' ']);
    exists|i: int| 0 <= i < offered.len() && same_ignoring_case(#[trigger] offered[i], "gzip"@)
}

/// The request asks for a gzip body.
pub open spec fn wants_gzip(request: RequestView) -> bool {
    match request.header("accept-encoding"@) {
        Some(encodings) => offers_gzip(encodings),
        None => false,
    }
}

/// What is left of a path after the prefix of its route.
pub open spec fn after_prefix(path: Seq<char>, prefix: Seq<char>) -> Seq<char> {
    path.skip(prefix.len() as int)
}

/// What has to be done for `request`. `base_dir` is the directory of the
/// files, where the server was given one; `stream` is what compressing the
/// echoed text gave, where it gave anything.
pub open spec fn planned(
    request: RequestView,
    base_dir: Option<Seq<char>>,
    stream: Option<Seq<u8>>,
) -> Result<ActionView, ServerError> {
    match route_of(request.endpoint) {
        Route::Root => Ok(ActionView::Respond(answer_bare(HttpStatus::Okay))),
        Route::UserAgent => match request.header("user-agent"@) {
            Some(agent) => Ok(ActionView::Respond(answer_text(agent, "text/plain"@))),
            None => Err(ServerError::UserAgentError),
        },
        Route::Echo => if wants_gzip(request) {
            match stream {
                Some(s) => Ok(ActionView::Respond(answer_gzip(s))),
                None => Err(ServerError::CompressionError),
            }
        } else {
            Ok(
                ActionView::Respond(
                    answer_text(after_prefix(request.endpoint, "/echo/"@), "text/plain"@),
                ),
            )
        },
        Route::Files => match base_dir {
            None => Err(ServerError::InvalidFileDirectory),
            Some(dir) => {
                let path = dir + after_prefix(request.endpoint, "/files/"@);
                match request.method {
                    RequestMethod::Get => Ok(ActionView::ReadFile { path }),
                    RequestMethod::Post => Ok(
                        ActionView::WriteFile { path, contents: body_text(request.body) },
                    ),
                }
            },
        },
        Route::NotFound => Ok(ActionView::Respond(answer_bare(HttpStatus::NotFound))),
    }
}

/// What the encoder gives for the text that an echo request asks for.
pub open spec fn echo_outcome(request: RequestView) -> Option<Seq<u8>> {
    gzip_outcome(encode_utf8(after_prefix(request.endpoint, "/echo/"@)))
}

/// The request that the bytes of a connection stand for: the bytes as
/// text, without the padding at their end, read as a request.
pub open spec fn request_of(buffer: Seq<u8>) -> Result<RequestView, ServerError> {
    if !valid_utf8(buffer) {
        Err(ServerError::ParseError)
    } else {
        match parsed(without_padding(decode_utf8(buffer))) {
            Ok(request) => Ok(request),
            Err(e) => Err(ServerError::RequestError(e)),
        }
    }
}

/// An answer: a response, and the bytes that are sent after its text.
#[derive(Debug)]
pub struct Reply {
    response: Response,
    payload: Vec<u8>,
}

impl View for Reply {
    type V = ReplyView;

    closed spec fn view(&self) -> ReplyView {
        ReplyView { response: self.response@, payload: self.payload@ }
    }
}

impl Reply {
    /// The answer made of a response and the bytes to send after it.
    pub fn new(response: Response, payload: Vec<u8>) -> (out: Reply)
        ensures
            out@ == (ReplyView { response: response@, payload: payload@ }),
    {
        Reply { response, payload }
    }

    /// The response.
    pub fn response(&self) -> (out: &Response)
        ensures
            out@ == self@.response,
    {
        &self.response
    }

    /// The bytes that are sent after the text of the response.
    pub fn payload(&self) -> (out: &Vec<u8>)
        ensures
            out@ == self@.payload,
    {
        &self.payload
    }

    /// The bytes that go over the wire for this answer.
    pub fn wire_bytes(&self) -> (out: Vec<u8>)
        ensures
            out@ == reply_bytes(self@),
    {
        let text = self.response.http_string();
        let mut out = text.as_str().as_bytes_vec();
        out.extend_from_slice(self.payload.as_slice());
        out
    }
}

/// What has to be done for a request.
#[derive(Debug)]
pub enum Action {
    /// Send this answer.
    Respond(Reply),
    /// Read the file at `path`, and answer with `reply_file`.
    ReadFile { path: String },
    /// Write `contents` to the file at `path`, and answer with `reply_written`.
    WriteFile { path: String, contents: String },
}

impl View for Action {
    type V = ActionView;

    open spec fn view(&self) -> ActionView {
        match self {
            Action::Respond(reply) => ActionView::Respond(reply@),
            Action::ReadFile { path } => ActionView::ReadFile { path: path@ },
            Action::WriteFile { path, contents } => ActionView::WriteFile {
                path: path@,
                contents: contents@,
            },
        }
    }
}

/// `out` is the outcome that `model` describes: the same error, or an
/// action that holds what the model holds.
pub open spec fn acts_as(
    out: Result<Action, ServerError>,
    model: Result<ActionView, ServerError>,
) -> bool {
    match model {
        Ok(action) => out matches Ok(a) && a@ == action,
        Err(e) => out matches Err(f) && f == e,
    }
}

/// The text of the name of the directory, where there is one.
pub open spec fn dir_view(base_dir: Option<&str>) -> Option<Seq<char>> {
    match base_dir {
        Some(d) => Some(d@),
        None => None,
    }
}

/// `out` is what serving `request` gives: what is planned with the outcome
/// of the encoder for the text to echo.
pub open spec fn serves(
    out: Result<Action, ServerError>,
    request: RequestView,
    base_dir: Option<Seq<char>>,
) -> bool {
    acts_as(out, planned(request, base_dir, echo_outcome(request)))
}

/// The answer that holds a status and nothing else.
pub fn reply_bare(status: HttpStatus) -> (out: Reply)
    ensures
        out@ == answer_bare(status),
{
    Reply::new(Response::new(status, None), Vec::new())
}

/// Sets the header fields that describe a body of the given type and length.
fn describe(response: &mut Response, content_type: &str, length: usize)
    requires
        old(response)@.headers.len() == 0 || old(response)@.headers == seq![
            ("Content-Encoding"@, "gzip"@),
        ],
    ensures
        final(response)@ == (ResponseView {
            headers: old(response)@.headers + describing(content_type@, length as nat),
            ..old(response)@
        }),
{
    proof {
        reveal_strlit("Content-Type");
        reveal_strlit("Content-Length");
        reveal_strlit("Content-Encoding");
        assert("Content-Type"@.len() == 12);
        assert("Content-Length"@.len() == 14);
        assert("Content-Encoding"@.len() == 16);
    }
    let ghost start = response@.headers;
    response.set_headers("Content-Type".to_owned(), content_type.to_owned());
    proof {
        assert(!has_name(start, "Content-Type"@));
        assert(response@.headers =~= start.push(("Content-Type"@, content_type@)));
    }
    let ghost middle = response@.headers;
    let digits = to_decimal(length);
    response.set_headers("Content-Length".to_owned(), string_of(digits.as_slice()));
    proof {
        assert(!has_name(middle, "Content-Length"@));
        assert(response@.headers =~= middle.push(
            ("Content-Length"@, decimal(length as nat)),
        ));
        assert(response@.headers =~= start + describing(content_type@, length as nat));
    }
}

/// The answer that carries `body` as text of the given type.
pub fn reply_text(body: String, content_type: &str) -> (out: Reply)
    ensures
        out@ == answer_text(body@, content_type@),
{
    let length = body.as_str().as_bytes().len();
    let mut response = Response::new(HttpStatus::Okay, Some(body));
    describe(&mut response, content_type, length);
    proof {
        assert(Seq::<Field>::empty() + describing(content_type@, length as nat) =~= describing(
            content_type@,
            length as nat,
        ));
    }
    Reply::new(response, Vec::new())
}

/// The answer that carries a gzip stream.
pub fn reply_gzip(stream: Vec<u8>) -> (out: Reply)
    ensures
        out@ == answer_gzip(stream@),
{
    let mut response = Response::new(HttpStatus::Okay, None);
    response.set_headers("Content-Encoding".to_owned(), "gzip".to_owned());
    proof {
        assert(response@.headers =~= seq![("Content-Encoding"@, "gzip"@)]);
    }
    describe(&mut response, "text/plain", stream.len());
    Reply::new(response, stream)
}

/// The answer to the reading of a file: its contents, or `NotFound` where
/// it could not be read.
pub fn reply_file(contents: Option<String>) -> (out: Reply)
    ensures
        out@ == answer_file(
            match contents {
                Some(c) => Some(c@),
                None => None,
            },
        ),
{
    match contents {
        Some(c) => reply_text(c, "application/octet-stream"),
        None => reply_bare(HttpStatus::NotFound),
    }
}

/// The answer to the writing of a file.
pub fn reply_written() -> (out: Reply)
    ensures
        out@ == answer_bare(HttpStatus::Created),
{
    reply_bare(HttpStatus::Created)
}

/// Whether the list of encodings names gzip.
pub fn accepts_gzip(encodings: &str) -> (out: bool)
    ensures
        out == offers_gzip(encodings@),
{
    let list = chars_of(encodings);
    let separator = vec![',', ' '];
    let wanted = chars_of("gzip");
    let offered = split(list.as_slice(), separator.as_slice());
    proof {
        assert(separator@ =~= seq![',', ' ']);
    }
    let mut i: usize = 0;
    while i < offered.len()
        invariant
            i <= offered.len(),
            wanted@ == "gzip"@,
            rows(offered@) == pieces(encodings@, seq![',', ' ']),
            forall|j: int|
                0 <= j < i ==> !same_ignoring_case(#[trigger] rows(offered@)[j], "gzip"@),
        decreases offered.len() - i,
    {
        if eq_ignoring_case(offered[i].as_slice(), wanted.as_slice()) {
            proof {
                assert(same_ignoring_case(rows(offered@)[i as int], "gzip"@));
            }
            return true;
        }
        i += 1;
    }
    false
}

/// What is left of `path` after a prefix of the given length.
fn rest_of(path: &str, prefix: &str) -> (out: String)
    requires
        occurs_at(path@, prefix@, 0),
    ensures
        out@ == after_prefix(path@, prefix@),
{
    let chars = chars_of(path);
    let skipped = chars_of(prefix);
    let rest = copy_range(chars.as_slice(), skipped.len(), chars.len());
    string_of(rest.as_slice())
}

/// Decides what has to be done for `request`.
///
/// The outcome is the one that `planned` describes. Where the request asks
/// for a gzip body, it is the answer with the stream of the encoder, and
/// `CompressionError` where the encoder reports a failure.
pub fn dispatch(request: &Request, base_dir: Option<&str>) -> (out: Result<Action, ServerError>)
    ensures
        serves(out, request@, dir_view(base_dir)),
{
    proof {
        lemma_route_order(request@.endpoint);
    }
    match route(request.endpoint()) {
        Route::Root => Ok(Action::Respond(reply_bare(HttpStatus::Okay))),
        Route::UserAgent => match request.get_header("user-agent") {
            Some(agent) => Ok(Action::Respond(reply_text(agent.clone(), "text/plain"))),
            None => Err(ServerError::UserAgentError),
        },
        Route::Echo => {
            let body = rest_of(request.endpoint(), "/echo/");
            let gzip = match request.get_header("accept-encoding") {
                Some(encodings) => accepts_gzip(encodings.as_str()),
                None => false,
            };
            if gzip {
                match handle_compression(body.as_str()) {
                    Ok(stream) => Ok(Action::Respond(reply_gzip(stream))),
                    Err(e) => Err(e),
                }
            } else {
                Ok(Action::Respond(reply_text(body, "text/plain")))
            }
        },
        Route::Files => match base_dir {
            None => Err(ServerError::InvalidFileDirectory),
            Some(dir) => {
                let name = rest_of(request.endpoint(), "/files/");
                let mut path = dir.to_owned();
                path.append(name.as_str());
                match request.method() {
                    RequestMethod::Get => Ok(Action::ReadFile { path }),
                    RequestMethod::Post => {
                        let contents = match request.body() {
                            Some(b) => b.clone(),
                            None => String::new(),
                        };
                        Ok(Action::WriteFile { path, contents })
                    },
                }
            },
        },
        Route::NotFound => Ok(Action::Respond(reply_bare(HttpStatus::NotFound))),
    }
}

/// Reads the request that the bytes of a connection stand for.
pub fn read_request(buffer: &[u8]) -> (out: Result<Request, ServerError>)
    ensures
        match request_of(buffer@) {
            Ok(request) => out matches Ok(r) && r@ == request,
            Err(e) => out matches Err(f) && f == e,
        },
{
    let text = match core::str::from_utf8(buffer) {
        Ok(t) => t,
        Err(_) => {
            return Err(ServerError::ParseError);
        },
    };
    proof {
        decode_utf8_encode_utf8(buffer@);
        encode_utf8_decode_utf8(text@);
    }
    let chars = chars_of(text);
    let kept = unpadded_len(chars.as_slice());
    let trimmed = copy_range(chars.as_slice(), 0, kept);
    match Request::parse_chars(trimmed.as_slice()) {
        Ok(request) => Ok(request),
        Err(e) => Err(ServerError::RequestError(e)),
    }
}

/// Serves one connection, as far as that takes no reading or writing: from
/// the bytes that came to what has to be done for them.
pub fn handle_connection(buffer: &[u8], base_dir: Option<&str>) -> (out: Result<
    Action,
    ServerError,
>)
    ensures
        match request_of(buffer@) {
            Ok(request) => serves(out, request, dir_view(base_dir)),
            Err(e) => out matches Err(f) && f == e,
        },
{
    match read_request(buffer) {
        Ok(request) => dispatch(&request, base_dir),
        Err(e) => Err(e),
    }
}

/// The encoder matters only where an echo is asked for with a gzip body:
/// for every other request the plan is the same whatever the encoder gives.
pub proof fn plan_needs_stream_for_gzip_only(
    request: RequestView,
    base_dir: Option<Seq<char>>,
    stream: Option<Seq<u8>>,
    other: Option<Seq<u8>>,
)
    requires
        !(route_of(request.endpoint) == Route::Echo && wants_gzip(request)),
    ensures
        planned(request, base_dir, stream) == planned(request, base_dir, other),
{
}

/// The root is answered with `Okay` and nothing else.
pub proof fn root_is_empty_ok(
    request: RequestView,
    base_dir: Option<Seq<char>>,
    stream: Option<Seq<u8>>,
)
    requires
        request.endpoint == "/"@,
    ensures
        planned(request, base_dir, stream) == Ok::<ActionView, ServerError>(
            ActionView::Respond(answer_bare(HttpStatus::Okay)),
        ),
        reply_bytes(answer_bare(HttpStatus::Okay)) == encode_utf8(
            "HTTP/1.1 200 OK"@ + crlf() + crlf(),
        ),
{
    lemma_route_order(request.endpoint);
    let reply = answer_bare(HttpStatus::Okay);
    assert(header_block(reply.response.headers) =~= Seq::<char>::empty());
    assert(wire_text(reply.response) =~= "HTTP/1.1 200 OK"@ + crlf() + crlf());
    assert(reply_bytes(reply) =~= encode_utf8(wire_text(reply.response)));
}

/// The path `/user-agent` is answered with the user agent that the request
/// names, and is an error where it names none.
pub proof fn user_agent_is_told(
    request: RequestView,
    base_dir: Option<Seq<char>>,
    stream: Option<Seq<u8>>,
)
    requires
        request.endpoint == "/user-agent"@,
    ensures
        planned(request, base_dir, stream) == match request.header("user-agent"@) {
            Some(agent) => Ok::<ActionView, ServerError>(
                ActionView::Respond(answer_text(agent, "text/plain"@)),
            ),
            None => Err::<ActionView, ServerError>(ServerError::UserAgentError),
        },
{
    reveal_strlit("/");
    reveal_strlit("/user-agent");
    assert("/"@.len() != "/user-agent"@.len());
    lemma_route_order(request.endpoint);
}

/// A path under `/echo/` is answered with what follows the prefix: as
/// plain text where no gzip body is asked for, and else as the stream that
/// the encoder gave. Where a gzip body is asked for and the encoder gave
/// none, the outcome is `CompressionError`.
pub proof fn echo_gives_the_rest(
    request: RequestView,
    rest: Seq<char>,
    base_dir: Option<Seq<char>>,
    stream: Seq<u8>,
)
    requires
        request.endpoint == "/echo/"@ + rest,
    ensures
        planned(request, base_dir, Some(stream)) == Ok::<ActionView, ServerError>(
            ActionView::Respond(
                if wants_gzip(request) {
                    answer_gzip(stream)
                } else {
                    answer_text(rest, "text/plain"@)
                },
            ),
        ),
        planned(request, base_dir, None) == if wants_gzip(request) {
            Err::<ActionView, ServerError>(ServerError::CompressionError)
        } else {
            Ok::<ActionView, ServerError>(
                ActionView::Respond(answer_text(rest, "text/plain"@)),
            )
        },
{
    lemma_under_prefix("/echo/"@, rest);
    reveal_strlit("/echo/");
    reveal_strlit("/");
    reveal_strlit("/user-agent");
    assert(request.endpoint.len() >= 6);
    assert(request.endpoint[1] == 'e');
    assert("/user-agent"@[1] == 'u');
    lemma_route_order(request.endpoint);
}

/// A path under `/files/` asks for the file that the directory and what
/// follows the prefix name together: for its reading where the method is
/// `Get`, and for the writing of the body where it is `Post`.
pub proof fn files_name_the_file(
    request: RequestView,
    name: Seq<char>,
    dir: Seq<char>,
    stream: Option<Seq<u8>>,
)
    requires
        request.endpoint == "/files/"@ + name,
    ensures
        planned(request, Some(dir), stream) == Ok::<ActionView, ServerError>(
            match request.method {
                RequestMethod::Get => ActionView::ReadFile { path: dir + name },
                RequestMethod::Post => ActionView::WriteFile {
                    path: dir + name,
                    contents: body_text(request.body),
                },
            },
        ),
        planned(request, None, stream) == Err::<ActionView, ServerError>(
            ServerError::InvalidFileDirectory,
        ),
{
    lemma_under_prefix("/files/"@, name);
    reveal_strlit("/files/");
    reveal_strlit("/echo/");
    reveal_strlit("/");
    reveal_strlit("/user-agent");
    assert(request.endpoint.len() >= 7);
    assert(request.endpoint[1] == 'f');
    assert("/user-agent"@[1] == 'u');
    assert(!occurs_at(request.endpoint, "/echo/"@, 0)) by {
        if occurs_at(request.endpoint, "/echo/"@, 0) {
            assert(request.endpoint.subrange(0, 6)[1] == "/echo/"@[1]);
        }
    }
    lemma_route_order(request.endpoint);
}

/// A path that is made of a prefix and a rest begins with the prefix, and
/// the rest is what is left after it.
proof fn lemma_under_prefix(prefix: Seq<char>, rest: Seq<char>)
    ensures
        occurs_at(prefix + rest, prefix, 0),
        after_prefix(prefix + rest, prefix) == rest,
{
    assert((prefix + rest).subrange(0, prefix.len() as int) =~= prefix);
    assert((prefix + rest).skip(prefix.len() as int) =~= rest);
}

/// A path that no rule accepts is answered with `NotFound` and nothing
/// else, whatever the method, the header fields and the body of the
/// request are.
pub proof fn unmatched_path_is_not_found(
    request: RequestView,
    base_dir: Option<Seq<char>>,
    stream: Option<Seq<u8>>,
)
    requires
        request.endpoint != "/"@,
        request.endpoint != "/user-agent"@,
        !occurs_at(request.endpoint, "/echo/"@, 0),
        !occurs_at(request.endpoint, "/files/"@, 0),
    ensures
        planned(request, base_dir, stream) == Ok::<ActionView, ServerError>(
            ActionView::Respond(answer_bare(HttpStatus::NotFound)),
        ),
        code_of(answer_bare(HttpStatus::NotFound).response.status) == 404,
        reply_bytes(answer_bare(HttpStatus::NotFound)) == encode_utf8(
            "HTTP/1.1 404 Not Found"@ + crlf() + crlf(),
        ),
{
    lemma_route_order(request.endpoint);
    let reply = answer_bare(HttpStatus::NotFound);
    assert(header_block(reply.response.headers) =~= Seq::<char>::empty());
    assert(wire_text(reply.response) =~= "HTTP/1.1 404 Not Found"@ + crlf() + crlf());
    assert(reply_bytes(reply) =~= encode_utf8(wire_text(reply.response)));
}

/// The length that an answer declares is the length of what is sent after
/// the header fields: `Content-Length`, where the answer has that field,
/// is the number of bytes of the body and the payload together, and only
/// one of the two is there.
pub open spec fn declares_its_length(reply: ReplyView) -> bool {
    &&& reply.response.body is None || reply.payload.len() == 0
    &&& value_of(reply.response.headers, "Content-Length"@) matches Some(length) ==> length
        == decimal(encode_utf8(body_text(reply.response.body)).len() + reply.payload.len())
}

/// The header fields that describe a body give its length under
/// `Content-Length`, also behind the field that names the encoding.
proof fn lemma_described_length(content_type: Seq<char>, length: nat)
    ensures
        value_of(describing(content_type, length), "Content-Length"@) == Some(decimal(length)),
        value_of(
            seq![("Content-Encoding"@, "gzip"@)] + describing(content_type, length),
            "Content-Length"@,
        ) == Some(decimal(length)),
{
    reveal_strlit("Content-Type");
    reveal_strlit("Content-Length");
    reveal_strlit("Content-Encoding");
    assert("Content-Type"@.len() == 12);
    assert("Content-Length"@.len() == 14);
    assert("Content-Encoding"@.len() == 16);
    let short = describing(content_type, length);
    assert(distinct_names(short));
    lemma_slot_is(short, 1);
    let long = seq![("Content-Encoding"@, "gzip"@)] + short;
    assert(long[0].0 == "Content-Encoding"@);
    assert(long[1].0 == "Content-Type"@);
    assert(long[2].0 == "Content-Length"@);
    assert(distinct_names(long));
    lemma_slot_is(long, 2);
}

/// Every answer that is sent declares its length: those that `planned`
/// gives, and the one that follows the reading of a file.
pub proof fn content_length_is_exact(
    request: RequestView,
    base_dir: Option<Seq<char>>,
    stream: Option<Seq<u8>>,
    contents: Option<Seq<char>>,
)
    ensures
        planned(request, base_dir, stream) matches Ok(ActionView::Respond(reply))
            ==> declares_its_length(reply),
        declares_its_length(answer_file(contents)),
        declares_its_length(answer_bare(HttpStatus::Created)),
{
    assert forall|status: HttpStatus| declares_its_length(#[trigger] answer_bare(status)) by {
        assert(!has_name(answer_bare(status).response.headers, "Content-Length"@));
        assert(encode_utf8(Seq::<char>::empty()).len() == 0);
    }
    assert forall|body: Seq<char>, content_type: Seq<char>|
        declares_its_length(#[trigger] answer_text(body, content_type)) by {
        lemma_described_length(content_type, encode_utf8(body).len());
    }
    assert forall|s: Seq<u8>| declares_its_length(#[trigger] answer_gzip(s)) by {
        lemma_described_length("text/plain"@, s.len());
        assert(encode_utf8(Seq::<char>::empty()).len() == 0);
    }
}

} // verus!
