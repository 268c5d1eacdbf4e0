//! Responses: what a response holds, and the text that goes over the wire
//! for it.

use crate::headers::{field_line, header_block, with_field, Field, Headers};
use crate::status::{line_of, HttpStatus, Status};
use crate::text::{colon_space, crlf};
use vstd::prelude::*;
use vstd::string::*;

verus! {

/// What a response holds.
pub ghost struct ResponseView {
    pub status: HttpStatus,
    pub headers: Seq<Field>,
    pub body: Option<Seq<char>>,
}

/// The body as text: nothing where there is no body.
pub open spec fn body_text(body: Option<Seq<char>>) -> Seq<char> {
    match body {
        Some(b) => b,
        None => Seq::empty(),
    }
}

/// The text of a response: the status line, the header fields, a blank
/// line, and the body.
pub open spec fn wire_text(response: ResponseView) -> Seq<char> {
    line_of(response.status) + crlf() + header_block(response.headers) + crlf() + body_text(
        response.body,
    )
}

/// A response: its status, its header fields and its body.
#[derive(Debug)]
pub struct Response {
    status: Status,
    headers: Headers,
    body: Option<String>,
}

impl View for Response {
    type V = ResponseView;

    closed spec fn view(&self) -> ResponseView {
        ResponseView {
            status: self.status@,
            headers: self.headers@,
            body: match self.body {
                Some(b) => Some(b@),
                None => None,
            },
        }
    }
}

impl Response {
    /// A response with the given status and body and no header fields.
    pub fn new(status: HttpStatus, body: Option<String>) -> (out: Response)
        ensures
            out@ == (ResponseView {
                status,
                headers: Seq::empty(),
                body: match body {
                    Some(b) => Some(b@),
                    None => None,
                },
            }),
    {
        Response { status: Status::new(status), headers: Headers::new(), body }
    }

    /// Sets the header field named `key` to `value`.
    pub fn set_headers(&mut self, key: String, value: String)
        ensures
            final(self)@ == (ResponseView {
                headers: with_field(old(self)@.headers, key@, value@),
                ..old(self)@
            }),
    {
        self.headers.insert(key, value);
    }

    /// Puts `body` in the place of the body.
    pub fn set_body(&mut self, body: Option<String>)
        ensures
            final(self)@ == (ResponseView {
                body: match body {
                    Some(b) => Some(b@),
                    None => None,
                },
                ..old(self)@
            }),
    {
        self.body = body;
    }

    /// The status.
    pub fn status(&self) -> (out: Status)
        ensures
            out@ == self@.status,
    {
        self.status
    }

    /// The header fields.
    pub fn headers(&self) -> (out: &Headers)
        ensures
            out@ == self@.headers,
    {
        &self.headers
    }

    /// The body, where there is one.
    pub fn body(&self) -> (out: &Option<String>)
        ensures
            match self@.body {
                Some(b) => *out matches Some(s) && s@ == b,
                None => *out is None,
            },
    {
        &self.body
    }

    /// The text that goes over the wire for this response.
    pub fn http_string(&self) -> (out: String)
        ensures
            out@ == wire_text(self@),
    {
        proof {
            reveal_strlit("\r\n");
            reveal_strlit(": ");
            assert("\r\n"@ =~= crlf());
            assert(": "@ =~= colon_space());
        }
        let mut out = self.status.status_line();
        out.append("\r\n");
        let ghost head = out@;
        let mut i: usize = 0;
        proof {
            assert(self@.headers.take(0) =~= Seq::<Field>::empty());
            assert(out@ =~= head + header_block(self@.headers.take(0)));
        }
        while i < self.headers.len()
            invariant
                i <= self@.headers.len(),
                "\r\n"@ == crlf(),
                ": "@ == colon_space(),
                out@ == head + header_block(self@.headers.take(i as int)),
            decreases self@.headers.len() - i,
        {
            let ghost before = out@;
            out.append(self.headers.name_at(i).as_str());
            out.append(": ");
            out.append(self.headers.value_at(i).as_str());
            out.append("\r\n");
            proof {
                let fields = self@.headers;
                assert(fields.take(i + 1).drop_last() =~= fields.take(i as int));
                assert(fields.take(i + 1).last() == fields[i as int]);
                assert(out@ =~= before + field_line(fields[i as int]));
                assert(out@ =~= head + header_block(fields.take(i + 1)));
            }
            i += 1;
        }
        proof {
            assert(self@.headers.take(self@.headers.len() as int) =~= self@.headers);
        }
        out.append("\r\n");
        match &self.body {
            Some(b) => {
                out.append(b.as_str());
            },
            None => {},
        }
        proof {
            assert(out@ =~= wire_text(self@));
        }
        out
    }
}

impl Clone for Response {
    fn clone(&self) -> (out: Response)
        ensures
            out@ == self@,
    {
        let body = match &self.body {
            Some(b) => Some(b.clone()),
            None => None,
        };
        Response { status: self.status, headers: self.headers.clone(), body }
    }
}

} // verus!
