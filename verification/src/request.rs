//! Requests: what a request holds, and how one is read from the text that
//! came over the wire.

use crate::chars::{blank, is_ascii_text, is_blank, lower, lower_name, to_lower, to_lower_name};
use crate::headers::{
    distinct_names, lemma_slot_is, lemma_with_field_distinct, value_of, with_field, Field,
    Headers,
};
use crate::text::{
    blank_line, chars_of, colon_space, crlf, equal, halves, lemma_pieces_nonempty, pieces,
    replace, replaced, rows, space, split, split_once, string_of,
};
use vstd::prelude::*;
use vstd::std_specs::convert::TryFromSpecImpl;
use vstd::string::*;

verus! {

/// The methods that the server answers.
#[derive(Clone, Copy, Debug, PartialEq, Eq, Structural)]
pub enum RequestMethod {
    Get,
    Post,
}

/// Why a text is not a request.
#[derive(Clone, Copy, Debug, PartialEq, Eq, Structural)]
pub enum RequestError {
    /// The text cannot be read as a request at all. The parser has no
    /// input for which it gives this error.
    ParseError,
    /// The first token of the request line names no supported method.
    InvalidHttpMethod,
    /// The request line has no second token.
    InvalidEndpoint,
    /// The header lines cannot be read. The parser has no input for which
    /// it gives this error: a line that does not read as a header field
    /// ends the reading of the header lines.
    InvalidHeaders,
}

/// The method that a token names, whatever the case of its letters.
pub open spec fn method_of(token: Seq<char>) -> Result<RequestMethod, RequestError> {
    if lower(token) == seq!['g', 'e', 't'] {
        Ok(RequestMethod::Get)
    } else if lower(token) == seq!['p', 'o', 's', 't'] {
        Ok(RequestMethod::Post)
    } else {
        Err(RequestError::InvalidHttpMethod)
    }
}

/// The lines of a request text: the blank line that parts headers and body
/// counts as one line terminator.
pub open spec fn lines_of(text: Seq<char>) -> Seq<Seq<char>> {
    pieces(replaced(text, blank_line(), crlf()), crlf())
}

/// The first token of the request line.
pub open spec fn method_token(line: Seq<char>) -> Seq<char> {
    match halves(line, space()) {
        Some((first, _)) => first,
        None => line,
    }
}

/// The second token of the request line, where the line has one: what
/// stands between the first space and the next.
pub open spec fn endpoint_token(line: Seq<char>) -> Option<Seq<char>> {
    match halves(line, space()) {
        Some((_, rest)) => Some(
            match halves(rest, space()) {
                Some((second, _)) => second,
                None => rest,
            },
        ),
        None => None,
    }
}

/// The line reads as `name: value`.
pub open spec fn is_field_line(line: Seq<char>) -> bool {
    halves(line, colon_space()) is Some
}

/// The field that a line of the form `name: value` stands for: the name in
/// lower case, the value as it is.
pub open spec fn field_of(line: Seq<char>) -> Field {
    let (name, value) = halves(line, colon_space())->0;
    (lower_name(name), value)
}

/// How many lines at the front read as `name: value`.
pub open spec fn field_lines(lines: Seq<Seq<char>>) -> nat
    decreases lines.len(),
{
    if lines.len() == 0 || !is_field_line(lines[0]) {
        0
    } else {
        1 + field_lines(lines.drop_first())
    }
}

/// The fields of lines that all read as `name: value`; of two lines with
/// one name the later one gives the value.
pub open spec fn gathered(lines: Seq<Seq<char>>) -> Seq<Field>
    decreases lines.len(),
{
    if lines.len() == 0 {
        Seq::empty()
    } else {
        let (name, value) = field_of(lines.last());
        with_field(gathered(lines.drop_last()), name, value)
    }
}

/// The lines between the request line and the last line.
pub open spec fn header_lines(lines: Seq<Seq<char>>) -> Seq<Seq<char>> {
    if lines.len() >= 2 {
        lines.subrange(1, lines.len() - 1)
    } else {
        Seq::empty()
    }
}

/// The header fields of a request: the header lines are read in order, and
/// the first one that does not read as `name: value` ends the reading.
pub open spec fn fields_of(lines: Seq<Seq<char>>) -> Seq<Field> {
    let candidates = header_lines(lines);
    gathered(candidates.take(field_lines(candidates) as int))
}

/// The body of a request: the last line, unless it is the request line
/// itself or nothing is left of it after trimming.
pub open spec fn body_of(lines: Seq<Seq<char>>) -> Option<Seq<char>> {
    if lines.len() >= 2 && !is_blank(lines.last()) {
        Some(lines.last())
    } else {
        None
    }
}

/// The fields as a request holds them: the names in lower case, and of two
/// fields whose names are then the same, the later value at the place of
/// the earlier.
pub open spec fn lowered(fields: Seq<Field>) -> Seq<Field>
    decreases fields.len(),
{
    if fields.len() == 0 {
        Seq::empty()
    } else {
        with_field(lowered(fields.drop_last()), lower_name(fields.last().0), fields.last().1)
    }
}

/// What a request holds.
pub ghost struct RequestView {
    pub method: RequestMethod,
    pub headers: Seq<Field>,
    pub endpoint: Seq<char>,
    pub body: Option<Seq<char>>,
}

impl RequestView {
    /// The value of the header field named `name`, whatever the case of
    /// the letters of `name`.
    pub open spec fn header(self, name: Seq<char>) -> Option<Seq<char>> {
        value_of(self.headers, lower_name(name))
    }
}

/// The request that a text stands for, or why it stands for none.
pub open spec fn parsed(text: Seq<char>) -> Result<RequestView, RequestError> {
    let lines = lines_of(text);
    let request_line = lines[0];
    match method_of(method_token(request_line)) {
        Err(e) => Err(e),
        Ok(method) => match endpoint_token(request_line) {
            None => Err(RequestError::InvalidEndpoint),
            Some(endpoint) => Ok(
                RequestView { method, headers: fields_of(lines), endpoint, body: body_of(lines) },
            ),
        },
    }
}

/// `out` is the outcome that `model` describes: the same error, or a
/// request that holds what the model holds.
pub open spec fn reads_as(
    out: Result<Request, RequestError>,
    model: Result<RequestView, RequestError>,
) -> bool {
    match model {
        Ok(request) => out matches Ok(r) && r@ == request,
        Err(e) => out matches Err(f) && f == e,
    }
}

/// The fields as a request holds them have distinct names.
pub proof fn lemma_lowered(fields: Seq<Field>)
    ensures
        distinct_names(lowered(fields)),
    decreases fields.len(),
{
    if fields.len() > 0 {
        lemma_lowered(fields.drop_last());
        lemma_with_field_distinct(
            lowered(fields.drop_last()),
            lower_name(fields.last().0),
            fields.last().1,
        );
    }
}

/// A field that a request holds under an ASCII name in lower case is found
/// under that name in any case.
pub proof fn held_field_is_found(request: RequestView, i: int, name: Seq<char>)
    requires
        distinct_names(request.headers),
        0 <= i < request.headers.len(),
        is_ascii_text(name),
        lower(name) == request.headers[i].0,
    ensures
        request.header(name) == Some(request.headers[i].1),
{
    lemma_slot_is(request.headers, i);
}

/// Where the first `n` lines read as `name: value` and the next one does
/// not, or there is no next one, `n` is the number of field lines.
pub proof fn lemma_field_lines(lines: Seq<Seq<char>>, n: int)
    requires
        0 <= n <= lines.len(),
        forall|j: int| 0 <= j < n ==> is_field_line(#[trigger] lines[j]),
        n == lines.len() || !is_field_line(lines[n]),
    ensures
        field_lines(lines) == n,
    decreases lines.len(),
{
    if n > 0 {
        assert(is_field_line(lines[0]));
        let rest = lines.drop_first();
        assert forall|j: int| 0 <= j < n - 1 implies is_field_line(#[trigger] rest[j]) by {
            assert(rest[j] == lines[j + 1]);
        }
        lemma_field_lines(rest, n - 1);
    }
}

impl RequestMethod {
    /// The method that the characters of a token name.
    fn of_token(token: &[char]) -> (out: Result<RequestMethod, RequestError>)
        ensures
            out == method_of(token@),
    {
        let folded = to_lower(token);
        let get = vec!['g', 'e', 't'];
        let post = vec!['p', 'o', 's', 't'];
        if equal(folded.as_slice(), get.as_slice()) {
            Ok(RequestMethod::Get)
        } else if equal(folded.as_slice(), post.as_slice()) {
            Ok(RequestMethod::Post)
        } else {
            Err(RequestError::InvalidHttpMethod)
        }
    }
}

impl<'a> TryFrom<&'a str> for RequestMethod {
    type Error = RequestError;

    /// The method that a token names, whatever the case of its letters.
    fn try_from(method: &'a str) -> (out: Result<RequestMethod, RequestError>)
        ensures
            out == method_of(method@),
    {
        let token = chars_of(method);
        RequestMethod::of_token(token.as_slice())
    }
}

impl<'a> TryFromSpecImpl<&'a str> for RequestMethod {
    open spec fn obeys_try_from_spec() -> bool {
        true
    }

    open spec fn try_from_spec(method: &'a str) -> Result<RequestMethod, RequestError> {
        method_of(method@)
    }
}

/// A request: its method, its path, its header fields and its body.
#[derive(Debug)]
pub struct Request {
    method: RequestMethod,
    headers: Headers,
    endpoint: String,
    body: Option<String>,
}

impl View for Request {
    type V = RequestView;

    closed spec fn view(&self) -> RequestView {
        RequestView {
            method: self.method,
            headers: self.headers@,
            endpoint: self.endpoint@,
            body: match self.body {
                Some(b) => Some(b@),
                None => None,
            },
        }
    }
}

/// The fields of `headers` under their names in lower case.
fn lower_names(headers: &Headers) -> (out: Headers)
    ensures
        out@ == lowered(headers@),
{
    let mut out = Headers::new();
    let mut i: usize = 0;
    proof {
        assert(headers@.take(0) =~= Seq::<Field>::empty());
    }
    while i < headers.len()
        invariant
            i <= headers@.len(),
            out@ == lowered(headers@.take(i as int)),
        decreases headers@.len() - i,
    {
        let name = chars_of(headers.name_at(i).as_str());
        let folded = to_lower_name(name.as_slice());
        out.insert(string_of(folded.as_slice()), headers.value_at(i).clone());
        proof {
            assert(headers@.take(i + 1).drop_last() =~= headers@.take(i as int));
            assert(headers@.take(i + 1).last() == headers@[i as int]);
        }
        i += 1;
    }
    proof {
        assert(headers@.take(headers@.len() as int) =~= headers@);
    }
    out
}

/// The header fields of the lines of a request.
fn read_fields(lines: &Vec<Vec<char>>) -> (out: Headers)
    ensures
        out@ == fields_of(rows(lines@)),
{
    let mut out = Headers::new();
    if lines.len() < 2 {
        return out;
    }
    let ghost candidates = header_lines(rows(lines@));
    let separator = vec![':', ' '];
    let last: usize = lines.len() - 1;
    let mut i: usize = 1;
    proof {
        assert(separator@ =~= colon_space());
        assert(candidates.take(0) =~= Seq::<Seq<char>>::empty());
    }
    loop
        invariant
            1 <= i <= last,
            last == lines.len() - 1,
            separator@ == colon_space(),
            candidates == header_lines(rows(lines@)),
            out@ == gathered(candidates.take(i - 1)),
            forall|j: int| 0 <= j < i - 1 ==> is_field_line(#[trigger] candidates[j]),
        ensures
            out@ == fields_of(rows(lines@)),
        decreases last - i,
    {
        if i == last {
            proof {
                lemma_field_lines(candidates, i - 1);
            }
            break;
        }
        let ghost line = candidates[i - 1];
        proof {
            assert(line == lines@[i as int]@);
        }
        match split_once(lines[i].as_slice(), separator.as_slice()) {
            Some((name, value)) => {
                let folded = to_lower_name(name.as_slice());
                out.insert(string_of(folded.as_slice()), string_of(value.as_slice()));
                proof {
                    assert(candidates.take(i as int).drop_last() =~= candidates.take(i - 1));
                    assert(candidates.take(i as int).last() == line);
                }
            },
            None => {
                proof {
                    lemma_field_lines(candidates, i - 1);
                }
                break;
            },
        }
        i += 1;
    }
    out
}

/// The body of the lines of a request.
fn read_body(lines: &Vec<Vec<char>>) -> (out: Option<String>)
    ensures
        match body_of(rows(lines@)) {
            Some(b) => out matches Some(s) && s@ == b,
            None => out is None,
        },
{
    if lines.len() < 2 {
        return None;
    }
    let last = &lines[lines.len() - 1];
    proof {
        assert(rows(lines@).last() == last@);
    }
    if blank(last.as_slice()) {
        None
    } else {
        Some(string_of(last.as_slice()))
    }
}

/// The second token of the request line.
fn read_endpoint(line: &[char]) -> (out: Option<String>)
    ensures
        match endpoint_token(line@) {
            Some(e) => out matches Some(s) && s@ == e,
            None => out is None,
        },
{
    let separator = vec![' '];
    proof {
        assert(separator@ =~= space());
    }
    match split_once(line, separator.as_slice()) {
        Some((_, rest)) => match split_once(rest.as_slice(), separator.as_slice()) {
            Some((second, _)) => Some(string_of(second.as_slice())),
            None => Some(string_of(rest.as_slice())),
        },
        None => None,
    }
}

/// The method that the first token of the request line names.
fn read_method(line: &[char]) -> (out: Result<RequestMethod, RequestError>)
    ensures
        out == method_of(method_token(line@)),
{
    let separator = vec![' '];
    proof {
        assert(separator@ =~= space());
    }
    match split_once(line, separator.as_slice()) {
        Some((first, _)) => RequestMethod::of_token(first.as_slice()),
        None => RequestMethod::of_token(line),
    }
}

impl Request {
    /// A request made of its parts. The header fields are held under their
    /// names in lower case.
    pub fn new(
        method: RequestMethod,
        headers: Headers,
        endpoint: String,
        body: Option<String>,
    ) -> (out: Request)
        ensures
            out@ == (RequestView {
                method,
                headers: lowered(headers@),
                endpoint: endpoint@,
                body: match body {
                    Some(b) => Some(b@),
                    None => None,
                },
            }),
    {
        let held = lower_names(&headers);
        Request { method, headers: held, endpoint, body }
    }

    /// Reads a request from its text.
    ///
    /// The text is cut into lines; the first is the request line, the last
    /// is the body, those between are header fields. The method is the
    /// first token of the request line and the path the second. A header
    /// line that does not read as `name: value` ends the reading of the
    /// header lines: the lines after it are not read, and no error is
    /// reported for it.
    pub fn parse(text: &str) -> (out: Result<Request, RequestError>)
        ensures
            reads_as(out, parsed(text@)),
            out matches Err(e) ==> e == RequestError::InvalidHttpMethod || e
                == RequestError::InvalidEndpoint,
    {
        let chars = chars_of(text);
        Request::parse_chars(chars.as_slice())
    }

    /// Reads a request from the characters of its text, as `parse` does.
    pub fn parse_chars(chars: &[char]) -> (out: Result<Request, RequestError>)
        ensures
            reads_as(out, parsed(chars@)),
            out matches Err(e) ==> e == RequestError::InvalidHttpMethod || e
                == RequestError::InvalidEndpoint,
    {
        let terminator = vec!['\r', '\n'];
        let double = vec!['\r', '\n', '\r', '\n'];
        let normal = replace(chars, double.as_slice(), terminator.as_slice());
        let lines = split(normal.as_slice(), terminator.as_slice());
        proof {
            lemma_pieces_nonempty(normal@, terminator@);
            assert(rows(lines@) == lines_of(chars@));
            assert(rows(lines@)[0] == lines@[0]@);
        }
        let request_line = lines[0].as_slice();
        let method = match read_method(request_line) {
            Ok(m) => m,
            Err(e) => {
                return Err(e);
            },
        };
        let endpoint = match read_endpoint(request_line) {
            Some(e) => e,
            None => {
                return Err(RequestError::InvalidEndpoint);
            },
        };
        let headers = read_fields(&lines);
        let body = read_body(&lines);
        Ok(Request { method, headers, endpoint, body })
    }

    /// The method.
    pub fn method(&self) -> (out: &RequestMethod)
        ensures
            *out == self@.method,
    {
        &self.method
    }

    /// The path.
    pub fn endpoint(&self) -> (out: &str)
        ensures
            out@ == self@.endpoint,
    {
        self.endpoint.as_str()
    }

    /// The body, where there is one.
    pub fn body(&self) -> (out: &Option<String>)
        ensures
            match self@.body {
                Some(b) => *out matches Some(s) && s@ == b,
                None => *out is None,
            },
    {
        &self.body
    }

    /// The header fields.
    pub fn headers(&self) -> (out: Headers)
        ensures
            out@ == self@.headers,
    {
        self.headers.clone()
    }

    /// The value of the header field named `key`, whatever the case of the
    /// letters of `key`.
    pub fn get_header(&self, key: &str) -> (out: Option<&String>)
        ensures
            match self@.header(key@) {
                Some(v) => out matches Some(s) && s@ == v,
                None => out is None,
            },
    {
        let name = chars_of(key);
        let folded = string_of(to_lower_name(name.as_slice()).as_slice());
        self.headers.get(folded.as_str())
    }
}

impl Clone for Request {
    fn clone(&self) -> (out: Request)
        ensures
            out@ == self@,
    {
        let body = match &self.body {
            Some(b) => Some(b.clone()),
            None => None,
        };
        Request {
            method: self.method,
            headers: self.headers.clone(),
            endpoint: self.endpoint.clone(),
            body,
        }
    }
}

impl<'a> TryFrom<&'a str> for Request {
    type Error = RequestError;

    /// Reads a request from its text, as `Request::parse` does.
    fn try_from(text: &'a str) -> (out: Result<Request, RequestError>)
        ensures
            reads_as(out, parsed(text@)),
    {
        Request::parse(text)
    }
}

impl<'a> TryFromSpecImpl<&'a str> for Request {
    /// Two requests that hold the same are not told apart, so the outcome
    /// is stated by `reads_as` and no single value is promised.
    open spec fn obeys_try_from_spec() -> bool {
        false
    }

    open spec fn try_from_spec(text: &'a str) -> Result<Request, RequestError> {
        choose|out: Result<Request, RequestError>| reads_as(out, parsed(text@))
    }
}

} // verus!
