//! The HTTP request that starts a connection: its first line and its
//! headers.

use crate::text::{
    ascii_lowercase, find_char, spec_ascii_lowercase, spec_find, spec_trim, trim,
};
use crate::{spec_header_insert, HeaderName, Headers};
use vstd::prelude::*;
use vstd::string::*;

verus! {

/// The methods a request may have.
#[derive(Debug, Clone, Copy, PartialEq, Eq, Structural)]
pub enum Method {
    Get,
    Post,
    Put,
    Delete,
}

impl Method {
    /// The method's name, in capitals.
    pub fn as_str(&self) -> (r: &'static str)
        ensures
            r@ == (match self {
                Method::Get => "GET"@,
                Method::Post => "POST"@,
                Method::Put => "PUT"@,
                Method::Delete => "DELETE"@,
            }),
    {
        match self {
            Method::Get => "GET",
            Method::Post => "POST",
            Method::Put => "PUT",
            Method::Delete => "DELETE",
        }
    }
}

/// Why a text is no request; the words say what was missed.
#[derive(Clone, Copy, Debug, PartialEq, Eq)]
pub struct ParseError(pub &'static str);

/// What a request is.
pub struct RequestView {
    pub method: Method,
    pub path: Seq<char>,
    pub version: Seq<char>,
    pub headers: Seq<(Seq<char>, Seq<char>)>,
}

/// A parsed request.
#[derive(Debug)]
pub struct Request {
    method: Method,
    path: String,
    version: String,
    headers: Headers,
}

impl View for Request {
    type V = RequestView;

    closed spec fn view(&self) -> RequestView {
        RequestView {
            method: self.method,
            path: self.path@,
            version: self.version@,
            headers: self.headers@,
        }
    }
}

/// Whether two texts differ at most in the case of ASCII letters.
pub open spec fn spec_eq_ignore_case(a: Seq<char>, b: Seq<char>) -> bool {
    spec_ascii_lowercase(a) == spec_ascii_lowercase(b)
}

/// The method that a word names, whatever the case of its letters.
pub open spec fn spec_method(word: Seq<char>) -> Option<Method> {
    if spec_eq_ignore_case(word, "GET"@) {
        Some(Method::Get)
    } else if spec_eq_ignore_case(word, "POST"@) {
        Some(Method::Post)
    } else if spec_eq_ignore_case(word, "PUT"@) {
        Some(Method::Put)
    } else if spec_eq_ignore_case(word, "DELETE"@) {
        Some(Method::Delete)
    } else {
        None
    }
}

/// Where the line that starts at `from` ends: behind its line feed, or at
/// the end of the text.
pub open spec fn spec_line_end(s: Seq<char>, from: int) -> int
    recommends
        0 <= from <= s.len(),
{
    let at = spec_find(s, '\n', from, s.len() as int);
    if at < s.len() {
        at + 1
    } else {
        at
    }
}

/// The first line of a request: the method, a space, the path, a space, the
/// version up to the next space or the end of the line, white space around
/// it left out. A missing path or version is reported before a method that
/// is none.
pub open spec fn spec_request_line(line: Seq<char>) -> Result<
    (Method, Seq<char>, Seq<char>),
    ParseError,
> {
    let n = line.len() as int;
    let first = spec_find(line, ' ', 0, n);
    let second = spec_find(line, ' ', first + 1, n);
    let third = spec_find(line, ' ', second + 1, n);
    if first >= n {
        Err(ParseError("expected path"))
    } else if second >= n {
        Err(ParseError("expected HTTP version"))
    } else if spec_method(line.subrange(0, first)) is None {
        Err(ParseError("expected HTTP method"))
    } else {
        Ok(
            (
                spec_method(line.subrange(0, first))->Some_0,
                line.subrange(first + 1, second),
                spec_trim(line.subrange(second + 1, third)),
            ),
        )
    }
}

/// A header line: the name up to the first colon, in lower case, and behind
/// the colon the value, white space around it left out.
pub open spec fn spec_header_line(line: Seq<char>) -> Result<(Seq<char>, Seq<char>), ParseError> {
    let n = line.len() as int;
    let colon = spec_find(line, ':', 0, n);
    if colon >= n {
        Err(ParseError("expected HTTP header"))
    } else {
        Ok((spec_ascii_lowercase(line.subrange(0, colon)), spec_trim(line.subrange(colon + 1, n))))
    }
}

/// The headers from `from` on, added to `found`: line after line up to the
/// first line that holds white space only, or the end of the text. A later
/// value for a name replaces the earlier one.
pub open spec fn spec_header_lines(s: Seq<char>, from: int, found: Seq<(Seq<char>, Seq<char>)>) -> Result<
    Seq<(Seq<char>, Seq<char>)>,
    ParseError,
>
    recommends
        0 <= from <= s.len(),
    decreases s.len() - from,
{
    if from >= s.len() || from < 0 {
        Ok(found)
    } else {
        let end = spec_line_end(s, from);
        let line = s.subrange(from, end);
        if end <= from || end > s.len() || spec_trim(line).len() == 0 {
            Ok(found)
        } else {
            match spec_header_line(line) {
                Err(e) => Err(e),
                Ok((name, value)) => spec_header_lines(s, end, spec_header_insert(found, name, value)),
            }
        }
    }
}

/// The request that a text holds.
pub open spec fn spec_parse_request(s: Seq<char>) -> Result<RequestView, ParseError> {
    let end = spec_line_end(s, 0);
    match spec_request_line(s.subrange(0, end)) {
        Err(e) => Err(e),
        Ok((method, path, version)) => match spec_header_lines(s, end, Seq::empty()) {
            Err(e) => Err(e),
            Ok(headers) => Ok(RequestView { method, path, version, headers }),
        },
    }
}

/// Whether two texts differ at most in the case of ASCII letters.
pub fn eq_ignore_case(a: &str, b: &str) -> (r: bool)
    ensures
        r == spec_eq_ignore_case(a@, b@),
{
    ascii_lowercase(a) == ascii_lowercase(b)
}

/// The method that a word names, whatever the case of its letters.
pub fn parse_method(word: &str) -> (r: Option<Method>)
    ensures
        r == spec_method(word@),
{
    if eq_ignore_case(word, "GET") {
        Some(Method::Get)
    } else if eq_ignore_case(word, "POST") {
        Some(Method::Post)
    } else if eq_ignore_case(word, "PUT") {
        Some(Method::Put)
    } else if eq_ignore_case(word, "DELETE") {
        Some(Method::Delete)
    } else {
        None
    }
}

/// Where the line that starts at `from` ends.
fn line_end(s: &str, from: usize, n: usize) -> (end: usize)
    requires
        from <= n,
        n == s@.len(),
    ensures
        end == spec_line_end(s@, from as int),
        from <= end <= n,
        from < n ==> from < end,
{
    let at = find_char(s, '\n', from, n);
    if at < n {
        at + 1
    } else {
        at
    }
}

/// Whether a line holds white space only: such a line ends the headers.
pub fn is_blank(line: &str) -> (r: bool)
    ensures
        r == (spec_trim(line@).len() == 0),
{
    trim(line).unicode_len() == 0
}

impl ParseError {
    /// The words that say what was missed.
    pub fn message(&self) -> (r: &'static str)
        ensures
            r == self.0,
    {
        self.0
    }
}

impl Request {
    /// Reads a request from the text received: the first line, then the
    /// headers up to the first blank line or the end of the text.
    pub fn try_parse_from(src: &str) -> (r: Result<Request, ParseError>)
        ensures
            match spec_parse_request(src@) {
                Ok(v) => r is Ok && r->Ok_0@ == v,
                Err(e) => r is Err && r->Err_0 == e,
            },
    {
        let n = src.unicode_len();
        let first_end = line_end(src, 0, n);
        let line = src.substring_char(0, first_end);
        let len = first_end;
        let first = find_char(line, ' ', 0, len);
        if first >= len {
            return Err(ParseError("expected path"));
        }
        let second = find_char(line, ' ', first + 1, len);
        if second >= len {
            return Err(ParseError("expected HTTP version"));
        }
        let third = find_char(line, ' ', second + 1, len);
        let method = match parse_method(line.substring_char(0, first)) {
            Some(m) => m,
            None => {
                return Err(ParseError("expected HTTP method"));
            },
        };
        let path = line.substring_char(first + 1, second).to_owned();
        let version = trim(line.substring_char(second + 1, third)).to_owned();
        let mut headers = Headers::new();
        let mut from = first_end;
        while from < n
            invariant
                first_end <= from <= n,
                n == src@.len(),
                first_end == spec_line_end(src@, 0),
                spec_request_line(src@.subrange(0, first_end as int)) == Ok::<
                    (Method, Seq<char>, Seq<char>),
                    ParseError,
                >((method, path@, version@)),
                spec_header_lines(src@, first_end as int, Seq::empty()) == spec_header_lines(
                    src@,
                    from as int,
                    headers@,
                ),
            decreases n - from,
        {
            let end = line_end(src, from, n);
            let line = src.substring_char(from, end);
            if is_blank(line) {
                return Ok(Request { method, path, version, headers });
            }
            let len = end - from;
            let colon = find_char(line, ':', 0, len);
            if colon >= len {
                return Err(ParseError("expected HTTP header"));
            }
            let name = HeaderName::from_str(line.substring_char(0, colon));
            let value = trim(line.substring_char(colon + 1, len)).to_owned();
            headers.insert(name, value);
            from = end;
        }
        Ok(Request { method, path, version, headers })
    }

    pub fn path(&self) -> (r: &str)
        ensures
            r@ == self@.path,
    {
        self.path.as_str()
    }

    pub fn method(&self) -> (r: Method)
        ensures
            r == self@.method,
    {
        self.method
    }

    pub fn version(&self) -> (r: &str)
        ensures
            r@ == self@.version,
    {
        self.version.as_str()
    }

    pub fn headers(&self) -> (r: &Headers)
        ensures
            r@ == self@.headers,
    {
        &self.headers
    }
}

} // verus!
