//! The HTTP response: a status, headers and a body, and the bytes that
//! stand for them.

use crate::{spec_header_insert, HeaderName, Headers};
use vstd::prelude::*;
use vstd::string::*;
use vstd::utf8::encode_utf8;

verus! {

/// The statuses this server answers with.
#[derive(Clone, Copy, PartialEq, Eq, Debug, Structural)]
pub enum Status {
    SwitchingProtocols,
    OK,
    BadRequest,
    Forbidden,
    NotFound,
    InternalServerError,
}

impl Default for Status {
    fn default() -> (r: Self)
        ensures
            r == Status::OK,
    {
        Status::OK
    }
}

/// The status line's code and reason.
pub open spec fn spec_status_text(status: Status) -> Seq<char> {
    match status {
        Status::SwitchingProtocols => "101 Switching Protocols"@,
        Status::OK => "200 OK"@,
        Status::BadRequest => "400 Bad Request"@,
        Status::Forbidden => "403 Forbidden"@,
        Status::NotFound => "404 Not Found"@,
        Status::InternalServerError => "500 Internal Server Error"@,
    }
}

impl Status {
    pub fn as_str(self) -> (r: &'static str)
        ensures
            r@ == spec_status_text(self),
    {
        match self {
            Status::SwitchingProtocols => "101 Switching Protocols",
            Status::OK => "200 OK",
            Status::BadRequest => "400 Bad Request",
            Status::Forbidden => "403 Forbidden",
            Status::NotFound => "404 Not Found",
            Status::InternalServerError => "500 Internal Server Error",
        }
    }
}

/// What a response is.
pub struct ResponseView {
    pub status: Status,
    pub headers: Seq<(Seq<char>, Seq<char>)>,
    pub body: Seq<u8>,
}

pub struct Response {
    status: Status,
    headers: Headers,
    body: Vec<u8>,
}

impl View for Response {
    type V = ResponseView;

    closed spec fn view(&self) -> ResponseView {
        ResponseView { status: self.status, headers: self.headers@, body: self.body@ }
    }
}

/// Collects the status and the headers of a response; the body comes last
/// and makes the response.
pub struct Builder {
    status: Status,
    headers: Headers,
}

impl Builder {
    pub closed spec fn spec_status(&self) -> Status {
        self.status
    }

    pub closed spec fn spec_headers(&self) -> Seq<(Seq<char>, Seq<char>)> {
        self.headers@
    }
}

/// The header lines: for each header its name, a colon and a space, its
/// value, and the line's end.
pub open spec fn spec_header_text(headers: Seq<(Seq<char>, Seq<char>)>) -> Seq<char>
    decreases headers.len(),
{
    if headers.len() == 0 {
        Seq::empty()
    } else {
        spec_header_text(headers.drop_last()) + headers.last().0 + ": "@ + headers.last().1 + "\r\n"@
    }
}

/// The head of a response: the status line, the header lines, an empty line.
pub open spec fn spec_head_text(status: Status, headers: Seq<(Seq<char>, Seq<char>)>) -> Seq<char> {
    "HTTP/1.1 "@ + spec_status_text(status) + "\r\n"@ + spec_header_text(headers) + "\r\n"@
}

/// The bytes of a response: the head in UTF-8, then the body.
pub open spec fn spec_response_bytes(r: ResponseView) -> Seq<u8> {
    encode_utf8(spec_head_text(r.status, r.headers)) + r.body
}

impl Response {
    /// A builder with the status `OK` and no header.
    pub fn builder() -> (b: Builder)
        ensures
            b.spec_status() == Status::OK,
            b.spec_headers() == Seq::<(Seq<char>, Seq<char>)>::empty(),
    {
        Builder { status: Status::OK, headers: Headers::new() }
    }

    pub fn status(&self) -> (r: Status)
        ensures
            r == self@.status,
    {
        self.status
    }

    pub fn headers(&self) -> (r: &Headers)
        ensures
            r@ == self@.headers,
    {
        &self.headers
    }

    pub fn body(&self) -> (r: &[u8])
        ensures
            r@ == self@.body,
    {
        self.body.as_slice()
    }

    /// The bytes to send for this response.
    pub fn into_bytes(self) -> (bytes: Vec<u8>)
        ensures
            bytes@ == spec_response_bytes(self@),
    {
        let mut head = String::from_str("HTTP/1.1 ");
        head.append(self.status.as_str());
        head.append("\r\n");
        let ghost start = head@;
        let n = self.headers.len();
        let mut i: usize = 0;
        assert(self.headers@.take(0) =~= Seq::<(Seq<char>, Seq<char>)>::empty());
        assert(head@ =~= start + spec_header_text(self.headers@.take(0)));
        while i < n
            invariant
                i <= n,
                n == self.headers@.len(),
                head@ == start + spec_header_text(self.headers@.take(i as int)),
            decreases n - i,
        {
            let (name, value) = self.headers.entry(i);
            let ghost before = head@;
            head.append(name);
            head.append(": ");
            head.append(value);
            head.append("\r\n");
            proof {
                let next = self.headers@.take(i + 1);
                assert(next.drop_last() =~= self.headers@.take(i as int));
                assert(next.last() == self.headers@[i as int]);
                assert(head@ =~= start + spec_header_text(next));
            }
            i += 1;
        }
        assert(self.headers@.take(n as int) =~= self.headers@);
        head.append("\r\n");
        assert(head@ =~= spec_head_text(self.status, self.headers@));
        let mut bytes = head.as_str().as_bytes_vec();
        bytes.extend_from_slice(self.body.as_slice());
        bytes
    }
}

impl Default for Builder {
    fn default() -> (b: Self)
        ensures
            b.spec_status() == Status::OK,
            b.spec_headers() == Seq::<(Seq<char>, Seq<char>)>::empty(),
    {
        Builder { status: Status::OK, headers: Headers::new() }
    }
}

impl Builder {
    pub fn with_status(&mut self, status: Status) -> (r: &mut Self)
        ensures
            r.spec_status() == status,
            r.spec_headers() == old(self).spec_headers(),
            *final(self) == *final(r),
    {
        self.status = status;
        self
    }

    /// Sets the header `name`, whatever the case of its letters, to `value`.
    pub fn with_header(&mut self, name: &str, value: &str) -> (r: &mut Self)
        ensures
            r.spec_status() == old(self).spec_status(),
            r.spec_headers() == spec_header_insert(
                old(self).spec_headers(),
                crate::text::spec_ascii_lowercase(name@),
                value@,
            ),
            *final(self) == *final(r),
    {
        self.headers.insert(HeaderName::from_str(name), value.to_owned());
        self
    }

    pub fn as_html(&mut self) -> (r: &mut Self)
        ensures
            r.spec_status() == old(self).spec_status(),
            r.spec_headers() == spec_header_insert(
                old(self).spec_headers(),
                crate::text::spec_ascii_lowercase("content-type"@),
                "text/html"@,
            ),
            *final(self) == *final(r),
    {
        self.with_header("content-type", "text/html")
    }

    pub fn as_js(&mut self) -> (r: &mut Self)
        ensures
            r.spec_status() == old(self).spec_status(),
            r.spec_headers() == spec_header_insert(
                old(self).spec_headers(),
                crate::text::spec_ascii_lowercase("content-type"@),
                "text/javascript"@,
            ),
            *final(self) == *final(r),
    {
        self.with_header("content-type", "text/javascript")
    }

    pub fn as_css(&mut self) -> (r: &mut Self)
        ensures
            r.spec_status() == old(self).spec_status(),
            r.spec_headers() == spec_header_insert(
                old(self).spec_headers(),
                crate::text::spec_ascii_lowercase("content-type"@),
                "text/css"@,
            ),
            *final(self) == *final(r),
    {
        self.with_header("content-type", "text/css")
    }

    pub fn as_json(&mut self) -> (r: &mut Self)
        ensures
            r.spec_status() == old(self).spec_status(),
            r.spec_headers() == spec_header_insert(
                old(self).spec_headers(),
                crate::text::spec_ascii_lowercase("content-type"@),
                "application/json"@,
            ),
            *final(self) == *final(r),
    {
        self.with_header("content-type", "application/json")
    }

    /// The response with what was collected and `body`.
    pub fn with_body(&mut self, body: Vec<u8>) -> (response: Response)
        ensures
            *final(self) == *old(self),
            response@ == (ResponseView {
                status: old(self).spec_status(),
                headers: old(self).spec_headers(),
                body: body@,
            }),
    {
        Response { status: self.status, headers: self.headers.clone(), body }
    }
}

} // verus!
