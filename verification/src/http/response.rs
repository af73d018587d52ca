//! The response under construction, and the vocabulary of its status line and
//! headers.
use crate::text::{
    decimal, decimal_string, first_where, lemma_first_where, lemma_first_where_is,
};
use vstd::prelude::*;
use vstd::string::{StringExecFns, StringSliceAdditionalSpecFns};
use vstd::utf8::encode_utf8;

verus! {

/// The outcome announced in the status line.
#[derive(Clone, Copy, Debug, PartialEq, Eq, Structural)]
pub enum HttpStatus {
    Success,
    NotFound,
}

impl HttpStatus {
    /// The three-digit code of the status.
    pub open spec fn code_of(self) -> u16 {
        match self {
            HttpStatus::Success => 200,
            HttpStatus::NotFound => 404,
        }
    }

    /// The status line, without the line break that ends it.
    pub open spec fn line_of(self) -> Seq<char> {
        match self {
            HttpStatus::Success => "HTTP/1.1 200 OK"@,
            HttpStatus::NotFound => "HTTP/1.1 404 Not Found"@,
        }
    }

    /// The three-digit code of the status.
    pub fn code(&self) -> (code: u16)
        ensures
            code == self.code_of(),
    {
        match self {
            HttpStatus::Success => 200,
            HttpStatus::NotFound => 404,
        }
    }

    /// The status line, without the line break that ends it.
    pub fn status_line(&self) -> (line: &'static str)
        ensures
            line@ == self.line_of(),
    {
        match self {
            HttpStatus::Success => "HTTP/1.1 200 OK",
            HttpStatus::NotFound => "HTTP/1.1 404 Not Found",
        }
    }
}

/// The media type announced in a `Content-Type` header.
#[derive(Clone, Copy, Debug, PartialEq, Eq, Structural)]
pub enum ContentType {
    Html,
    PlainText,
    Css,
    AvifImage,
}

impl ContentType {
    /// The media type as it is written in the header.
    pub open spec fn mime(self) -> Seq<char> {
        match self {
            ContentType::Html => "text/html"@,
            ContentType::PlainText => "text/plain"@,
            ContentType::Css => "text/css"@,
            ContentType::AvifImage => "image/avif"@,
        }
    }

    /// The media type as it is written in the header.
    pub fn to_string(&self) -> (s: String)
        ensures
            s@ == self.mime(),
    {
        match self {
            ContentType::Html => String::from_str("text/html"),
            ContentType::PlainText => String::from_str("text/plain"),
            ContentType::Css => String::from_str("text/css"),
            ContentType::AvifImage => String::from_str("image/avif"),
        }
    }
}

/// A header: its name and its value.
pub type Header = (Seq<char>, Seq<char>);

/// The name of the header that announces the media type of the body.
pub open spec fn content_type_name() -> Seq<char> {
    "Content-Type"@
}

/// The name of the header that announces the length of the body.
pub open spec fn content_length_name() -> Seq<char> {
    "Content-Length"@
}

/// The test that a header is called `name`. Names are compared as written:
/// `content-length` is another name than `Content-Length`.
pub open spec fn named(name: Seq<char>) -> spec_fn(Header) -> bool {
    |h: Header| h.0 == name
}

/// The index of the first header called `name`, or the number of headers
/// where none is.
pub open spec fn index_of_name(headers: Seq<Header>, name: Seq<char>) -> int {
    first_where(headers, named(name), 0)
}

/// The value that `headers` gives to `name`, if any.
pub open spec fn value_of(headers: Seq<Header>, name: Seq<char>) -> Option<Seq<char>> {
    let i = index_of_name(headers, name);
    if i < headers.len() {
        Some(headers[i].1)
    } else {
        None
    }
}

/// `headers` after `name` is set to `value`: a name that is there already
/// keeps its place and gets the new value, a new name goes to the end.
pub open spec fn put(headers: Seq<Header>, name: Seq<char>, value: Seq<char>) -> Seq<Header> {
    let i = index_of_name(headers, name);
    if i < headers.len() {
        headers.update(i, (name, value))
    } else {
        headers.push((name, value))
    }
}

/// No name is held twice.
pub open spec fn distinct_names(headers: Seq<Header>) -> bool {
    forall|i: int, j: int| 0 <= i < j < headers.len() ==> headers[i].0 != headers[j].0
}

/// The line break of the wire format: carriage return, line feed.
pub open spec fn crlf() -> Seq<u8> {
    seq![13u8, 10u8]
}

/// One header as it is sent: name, colon, space, value, line break.
pub open spec fn header_line(h: Header) -> Seq<u8> {
    encode_utf8(h.0) + seq![58u8, 32u8] + encode_utf8(h.1) + crlf()
}

/// The headers as they are sent, one line each, in order.
pub open spec fn header_block(headers: Seq<Header>) -> Seq<u8>
    decreases headers.len(),
{
    if headers.len() == 0 {
        Seq::empty()
    } else {
        header_block(headers.drop_last()) + header_line(headers.last())
    }
}

/// What a response holds.
pub struct ResponseView {
    pub status: HttpStatus,
    pub headers: Seq<Header>,
    pub body: Option<Seq<u8>>,
}

impl ResponseView {
    /// The response a builder starts from: success, no header, no body.
    pub open spec fn empty() -> ResponseView {
        ResponseView { status: HttpStatus::Success, headers: Seq::empty(), body: None }
    }

    /// This response with its status replaced.
    pub open spec fn with_status(self, status: HttpStatus) -> ResponseView {
        ResponseView { status, ..self }
    }

    /// This response after the header `name` is set to `value`. Once a body is
    /// set, `Content-Length` belongs to it: a value written to that name is
    /// replaced by the length of the body.
    pub open spec fn with_header(self, name: Seq<char>, value: Seq<char>) -> ResponseView {
        let written = match self.body {
            Some(body) if name == content_length_name() => decimal(body.len()),
            _ => value,
        };
        ResponseView { headers: put(self.headers, name, written), ..self }
    }

    /// This response after `body` is set: the body is replaced and
    /// `Content-Length` is set to its length in bytes.
    pub open spec fn with_body(self, body: Seq<u8>) -> ResponseView {
        ResponseView {
            headers: put(self.headers, content_length_name(), decimal(body.len())),
            body: Some(body),
            ..self
        }
    }

    /// Every name is held once, and where there is a body `Content-Length`
    /// gives its length in bytes.
    pub open spec fn wf(self) -> bool {
        &&& distinct_names(self.headers)
        &&& self.body matches Some(body) ==> value_of(self.headers, content_length_name())
            == Some(decimal(body.len()))
    }

    /// The bytes that go on the wire: the status line, the header lines, an
    /// empty line, then the body.
    pub open spec fn wire(self) -> Seq<u8> {
        encode_utf8(self.status.line_of()) + crlf() + header_block(self.headers) + crlf() + (
        match self.body {
            Some(body) => body,
            None => Seq::empty(),
        })
    }
}

/// After `name` is set to `value`, `name` has that value.
pub proof fn lemma_put_sets(headers: Seq<Header>, name: Seq<char>, value: Seq<char>)
    ensures
        value_of(put(headers, name, value), name) == Some(value),
{
    let i = index_of_name(headers, name);
    lemma_first_where(headers, named(name), 0);
    lemma_first_where_is(put(headers, name, value), named(name), 0, i);
}

/// Setting `name` leaves the value of every other name as it was.
pub proof fn lemma_put_keeps(
    headers: Seq<Header>,
    name: Seq<char>,
    value: Seq<char>,
    other: Seq<char>,
)
    requires
        other != name,
    ensures
        value_of(put(headers, name, value), other) == value_of(headers, other),
{
    let after = put(headers, name, value);
    let k = index_of_name(headers, other);
    lemma_first_where(headers, named(name), 0);
    lemma_first_where(headers, named(other), 0);
    lemma_first_where_is(after, named(other), 0, if k < headers.len() {
        k
    } else {
        after.len() as int
    });
}

/// Setting a name keeps every name held once.
pub proof fn lemma_put_distinct(headers: Seq<Header>, name: Seq<char>, value: Seq<char>)
    requires
        distinct_names(headers),
    ensures
        distinct_names(put(headers, name, value)),
{
    let i = index_of_name(headers, name);
    lemma_first_where(headers, named(name), 0);
    let after = put(headers, name, value);
    assert forall|a: int, b: int| 0 <= a < b < after.len() implies after[a].0 != after[b].0 by {
        if i < headers.len() {
            assert(after[a].0 == headers[a].0);
            assert(after[b].0 == headers[b].0);
        } else if b == headers.len() {
            assert(!named(name)(headers[a]));
        }
    }
}

/// Setting a header keeps a response well formed.
pub proof fn lemma_with_header_wf(r: ResponseView, name: Seq<char>, value: Seq<char>)
    requires
        r.wf(),
    ensures
        r.with_header(name, value).wf(),
{
    let written = r.with_header(name, value).headers[index_of_name(r.headers, name)].1;
    lemma_first_where(r.headers, named(name), 0);
    lemma_put_distinct(r.headers, name, written);
    if name == content_length_name() {
        lemma_put_sets(r.headers, name, written);
    } else {
        lemma_put_keeps(r.headers, name, written, content_length_name());
    }
}

/// Setting a body keeps a response well formed.
pub proof fn lemma_with_body_wf(r: ResponseView, body: Seq<u8>)
    requires
        r.wf(),
    ensures
        r.with_body(body).wf(),
{
    lemma_put_distinct(r.headers, content_length_name(), decimal(body.len()));
    lemma_put_sets(r.headers, content_length_name(), decimal(body.len()));
}

/// A response in the making: a status, headers in the order in which their
/// names were first set, and a body once one is set.
pub struct Response {
    status: HttpStatus,
    headers: Vec<(String, String)>,
    body: Option<Vec<u8>>,
}

/// The headers that `v` holds, as names and values.
pub closed spec fn headers_of(v: Seq<(String, String)>) -> Seq<Header> {
    Seq::new(v.len(), |i: int| (v[i].0@, v[i].1@))
}

impl View for Response {
    type V = ResponseView;

    closed spec fn view(&self) -> ResponseView {
        ResponseView {
            status: self.status,
            headers: headers_of(self.headers@),
            body: match self.body {
                Some(body) => Some(body@),
                None => None,
            },
        }
    }
}

/// Appends the bytes of `src` to `out`.
fn append_bytes(out: &mut Vec<u8>, src: &[u8])
    ensures
        final(out)@ == old(out)@ + src@,
{
    let mut i: usize = 0;
    while i < src.len()
        invariant
            i <= src.len(),
            out@ == old(out)@ + src@.take(i as int),
        decreases src.len() - i,
    {
        out.push(src[i]);
        assert(src@.take(i + 1) =~= src@.take(i as int).push(src@[i as int]));
        i += 1;
    }
    assert(src@.take(src@.len() as int) =~= src@);
}

impl Response {
    #[verifier::type_invariant]
    spec fn inv(self) -> bool {
        self@.wf()
    }

    /// A response that reports success and has neither headers nor body.
    pub fn new() -> (r: Response)
        ensures
            r@ == ResponseView::empty(),
            r@.wf(),
    {
        let r = Response { status: HttpStatus::Success, headers: Vec::new(), body: None };
        assert(r@.headers =~= Seq::empty());
        r
    }

    /// Replaces the status.
    pub fn set_status(self, status: HttpStatus) -> (r: Response)
        ensures
            r@ == self@.with_status(status),
            r@.wf(),
    {
        proof {
            use_type_invariant(&self);
        }
        let Response { status: _, headers, body } = self;
        Response { status, headers, body }
    }

    /// Sets the header `name` to `value`. The last value written to a name is
    /// the one it has; where a body is set, `Content-Length` keeps the length
    /// of the body whatever is written to it.
    pub fn set_headers(self, name: String, value: String) -> (r: Response)
        ensures
            r@ == self@.with_header(name@, value@),
            r@.wf(),
    {
        proof {
            use_type_invariant(&self);
        }
        proof {
            lemma_with_header_wf(self@, name@, value@);
        }
        let Response { status, headers, body } = self;
        let written = match &body {
            Some(bytes) if name == String::from_str("Content-Length") => decimal_string(
                bytes.len() as u64,
            ),
            _ => value,
        };
        let headers = put_header(headers, name, written);
        Response { status, headers, body }
    }

    /// Sets the body, and `Content-Length` to its length in bytes.
    pub fn set_body(self, body: &[u8]) -> (r: Response)
        ensures
            r@ == self@.with_body(body@),
            r@.wf(),
    {
        proof {
            use_type_invariant(&self);
        }
        proof {
            lemma_with_body_wf(self@, body@);
        }
        let Response { status, headers, body: _ } = self;
        let length = decimal_string(body.len() as u64);
        let headers = put_header(headers, String::from_str("Content-Length"), length);
        let body = vstd::slice::slice_to_vec(body);
        Response { status, headers, body: Some(body) }
    }

    /// The status.
    pub fn status(&self) -> (status: HttpStatus)
        ensures
            status == self@.status,
            self@.wf(),
    {
        proof {
            use_type_invariant(self);
        }
        self.status
    }

    /// The value of the header `name`, if it is set.
    pub fn header(&self, name: &str) -> (value: Option<&str>)
        ensures
            match value {
                Some(v) => value_of(self@.headers, name@) == Some(v@),
                None => value_of(self@.headers, name@) is None,
            },
            self@.wf(),
    {
        proof {
            use_type_invariant(self);
        }
        let name = String::from_str(name);
        let ghost held = headers_of(self.headers@);
        let mut i: usize = 0;
        while i < self.headers.len() && !(self.headers[i].0 == name)
            invariant
                i <= self.headers.len(),
                held == headers_of(self.headers@),
                forall|k: int| 0 <= k < i ==> !named(name@)(#[trigger] held[k]),
            decreases self.headers.len() - i,
        {
            i += 1;
        }
        proof {
            lemma_first_where_is(held, named(name@), 0, i as int);
        }
        if i < self.headers.len() {
            Some(self.headers[i].1.as_str())
        } else {
            None
        }
    }

    /// The body, if one is set.
    pub fn body(&self) -> (body: Option<&[u8]>)
        ensures
            match body {
                Some(bytes) => self@.body == Some(bytes@),
                None => self@.body is None,
            },
            self@.wf(),
    {
        proof {
            use_type_invariant(self);
        }
        match &self.body {
            Some(bytes) => Some(bytes.as_slice()),
            None => None,
        }
    }

    /// The response as it is sent.
    pub fn as_bytes(&self) -> (bytes: Vec<u8>)
        ensures
            bytes@ == self@.wire(),
            self@.wf(),
    {
        proof {
            use_type_invariant(self);
        }
        let ghost held = headers_of(self.headers@);
        let ghost line = encode_utf8(self.status.line_of());
        let mut out: Vec<u8> = Vec::new();
        append_bytes(&mut out, self.status.status_line().as_bytes());
        out.push(13);
        out.push(10);
        assert(out@ =~= line + crlf() + header_block(held.take(0)));
        let mut i: usize = 0;
        while i < self.headers.len()
            invariant
                i <= self.headers.len(),
                held == headers_of(self.headers@),
                out@ == line + crlf() + header_block(held.take(i as int)),
            decreases self.headers.len() - i,
        {
            let ghost sent = out@;
            append_bytes(&mut out, self.headers[i].0.as_str().as_bytes());
            out.push(58);
            out.push(32);
            append_bytes(&mut out, self.headers[i].1.as_str().as_bytes());
            out.push(13);
            out.push(10);
            proof {
                assert(held.take(i + 1).drop_last() =~= held.take(i as int));
                assert(held.take(i + 1).last() == held[i as int]);
                assert(out@ =~= sent + header_line(held[i as int]));
                assert(out@ =~= line + crlf() + header_block(held.take(i + 1)));
            }
            i += 1;
        }
        assert(held.take(i as int) =~= held);
        out.push(13);
        out.push(10);
        match &self.body {
            Some(bytes) => {
                append_bytes(&mut out, bytes.as_slice());
            },
            None => {},
        }
        assert(out@ =~= self@.wire());
        out
    }
}

/// Sets `name` to `value` in `headers`.
fn put_header(headers: Vec<(String, String)>, name: String, value: String) -> (r: Vec<
    (String, String),
>)
    ensures
        headers_of(r@) == put(headers_of(headers@), name@, value@),
{
    let mut headers = headers;
    let ghost before = headers_of(headers@);
    let mut i: usize = 0;
    while i < headers.len() && !(headers[i].0 == name)
        invariant
            i <= headers.len(),
            before == headers_of(headers@),
            forall|k: int| 0 <= k < i ==> !named(name@)(#[trigger] before[k]),
        decreases headers.len() - i,
    {
        i += 1;
    }
    proof {
        lemma_first_where_is(before, named(name@), 0, i as int);
    }
    if i < headers.len() {
        headers.set(i, (name, value));
        assert(headers_of(headers@) =~= before.update(i as int, (name@, value@)));
    } else {
        headers.push((name, value));
        assert(headers_of(headers@) =~= before.push((name@, value@)));
    }
    headers
}

} // verus!
