//! The five handlers, each a function from what it is given to the response
//! it answers with.
use crate::http::request::{query_map, Request};
use crate::http::response::{
    content_length_name, content_type_name, named, value_of, ContentType, Header, HttpStatus,
    Response, ResponseView,
};
use crate::text::{
    contains, contains_bytes, decimal, decimal_string, first_where, is_byte,
    lemma_first_where_is, matches_at, occurs_at, seek, seek_byte, split_tokens, tokens, views,
};
use vstd::prelude::*;
use vstd::string::{StringExecFns, StringSliceAdditionalSpecFns};
use vstd::utf8::encode_utf8;

verus! {

/// The content type of a file named `name`, given as the bytes of the name.
///
/// The tests run in this order and the first that succeeds decides: `.htm`
/// anywhere in the name (so `.html` too), `.txt`, `.css`, then one of `.png`,
/// `.jpg`, `.ico`. A name that passes none of them is served as HTML. The
/// comparison is byte for byte, so `photo.PNG` passes none.
pub open spec fn content_type_of(name: Seq<u8>) -> ContentType {
    if contains(name, ".htm".spec_bytes()) {
        ContentType::Html
    } else if contains(name, ".txt".spec_bytes()) {
        ContentType::PlainText
    } else if contains(name, ".css".spec_bytes()) {
        ContentType::Css
    } else if contains(name, ".png".spec_bytes()) || contains(name, ".jpg".spec_bytes())
        || contains(name, ".ico".spec_bytes()) {
        ContentType::AvifImage
    } else {
        ContentType::Html
    }
}

/// Infers the content type of a file from the bytes of its name.
pub fn content_type_for(name: &[u8]) -> (content_type: ContentType)
    ensures
        content_type == content_type_of(name@),
{
    if contains_bytes(name, ".htm".as_bytes()) {
        ContentType::Html
    } else if contains_bytes(name, ".txt".as_bytes()) {
        ContentType::PlainText
    } else if contains_bytes(name, ".css".as_bytes()) {
        ContentType::Css
    } else if contains_bytes(name, ".png".as_bytes()) || contains_bytes(name, ".jpg".as_bytes())
        || contains_bytes(name, ".ico".as_bytes()) {
        ContentType::AvifImage
    } else {
        ContentType::Html
    }
}

/// Infers the content type of a file from its name.
pub fn parse_content_type(req: &str) -> (content_type: ContentType)
    ensures
        content_type == content_type_of(req.spec_bytes()),
{
    content_type_for(req.as_bytes())
}

/// The response that every handler answers with: `status`, a `Content-Type`
/// of `content_type`, and `body` with its length.
pub open spec fn reply(status: HttpStatus, content_type: ContentType, body: Seq<u8>)
    -> ResponseView {
    ResponseView::empty().with_status(status).with_header(
        content_type_name(),
        content_type.mime(),
    ).with_body(body)
}

/// What a reply holds, written out: the status, the two headers in the order
/// `Content-Type`, `Content-Length`, and the body. The length announced is
/// that of the body in bytes.
pub proof fn lemma_reply(status: HttpStatus, content_type: ContentType, body: Seq<u8>)
    ensures
        reply(status, content_type, body) == (ResponseView {
            status,
            headers: seq![
                (content_type_name(), content_type.mime()),
                (content_length_name(), decimal(body.len())),
            ],
            body: Some(body),
        }),
        value_of(reply(status, content_type, body).headers, content_type_name()) == Some(
            content_type.mime(),
        ),
        value_of(reply(status, content_type, body).headers, content_length_name()) == Some(
            decimal(body.len()),
        ),
        reply(status, content_type, body).wf(),
{
    assert(content_type_name() != content_length_name()) by {
        reveal_strlit("Content-Type");
        reveal_strlit("Content-Length");
        assert(content_type_name().len() == 12);
        assert(content_length_name().len() == 14);
    }
    let named_type = named(content_type_name());
    let named_length = named(content_length_name());
    let first: Seq<Header> = seq![(content_type_name(), content_type.mime())];
    let both = first.push((content_length_name(), decimal(body.len())));
    lemma_first_where_is(Seq::<Header>::empty(), named_type, 0, 0);
    assert(Seq::<Header>::empty().push((content_type_name(), content_type.mime())) =~= first);
    assert(!named_length(first[0]));
    lemma_first_where_is(first, named_length, 0, 1);
    assert(named_type(both[0]));
    lemma_first_where_is(both, named_type, 0, 0);
    assert(!named_length(both[0]));
    assert(named_length(both[1]));
    lemma_first_where_is(both, named_length, 0, 1);
    assert(both =~= seq![
        (content_type_name(), content_type.mime()),
        (content_length_name(), decimal(body.len())),
    ]);
}

/// Builds the response that every handler answers with.
fn reply_with(status: HttpStatus, content_type: ContentType, body: &[u8]) -> (r: Response)
    ensures
        r@ == reply(status, content_type, body@),
        r@.wf(),
{
    Response::new().set_status(status).set_headers(
        String::from_str("Content-Type"),
        content_type.to_string(),
    ).set_body(body)
}

/// Answers every request with the index page.
pub struct Index;

/// Answers every request with the notice that nothing was found.
pub struct NotFound;

/// Answers with the number of visits so far.
pub struct VisitCount;

/// Answers with the `content` parameter of the request.
pub struct Echo<'a> {
    pub path_buf: &'a [u8],
}

/// Answers with the file under the static root that the request names.
pub struct StaticFile<'a> {
    pub path_buf: &'a [u8],
}

impl Index {
    /// The body of the index page.
    pub open spec fn body() -> Seq<u8> {
        "Index Page".spec_bytes()
    }

    /// The response: success, HTML, the index page.
    pub fn respond(&self) -> (r: Response)
        ensures
            r@ == reply(HttpStatus::Success, ContentType::Html, Index::body()),
            r@.wf(),
    {
        reply_with(HttpStatus::Success, ContentType::Html, "Index Page".as_bytes())
    }
}

impl NotFound {
    /// The body of the notice.
    pub open spec fn body() -> Seq<u8> {
        "404 Not Found!".spec_bytes()
    }

    /// The response: not found, HTML, the notice.
    pub fn respond(&self) -> (r: Response)
        ensures
            r@ == reply(HttpStatus::NotFound, ContentType::Html, NotFound::body()),
            r@.wf(),
    {
        reply_with(HttpStatus::NotFound, ContentType::Html, "404 Not Found!".as_bytes())
    }
}

impl VisitCount {
    /// The body that reports `count` visits.
    pub open spec fn body(count: nat) -> Seq<u8> {
        encode_utf8(decimal(count) + " Times!"@)
    }

    /// The response to the visit that brought the counter to `count`:
    /// success, HTML, the count.
    pub fn respond(&self, count: u64) -> (r: Response)
        ensures
            r@ == reply(HttpStatus::Success, ContentType::Html, VisitCount::body(count as nat)),
            r@.wf(),
    {
        let mut text = decimal_string(count);
        text.append(" Times!");
        reply_with(HttpStatus::Success, ContentType::Html, text.as_str().as_bytes())
    }
}

impl<'a> Echo<'a> {
    /// The body that answers the request `raw`: the value of its `content`
    /// parameter, or a fixed text where it has none.
    pub open spec fn body(raw: Seq<u8>) -> Seq<u8> {
        let queries = query_map(raw);
        if queries.contains_key("content".spec_bytes()) {
            queries["content".spec_bytes()]
        } else {
            "Need some arguments".spec_bytes()
        }
    }

    /// The response: success, HTML, the value of `content`.
    pub fn respond(&self) -> (r: Response)
        ensures
            r@ == reply(HttpStatus::Success, ContentType::Html, Echo::body(self.path_buf@)),
            r@.wf(),
    {
        let request = Request::new(vstd::slice::slice_to_vec(self.path_buf));
        let queries = request.parse_queries();
        let body = match queries.get("content") {
            Some(value) => value,
            None => "Need some arguments".as_bytes(),
        };
        reply_with(HttpStatus::Success, ContentType::Html, body)
    }
}

/// `/`, which parts the segments of a path.
pub const SLASH: u8 = 0x2f;

/// `\`, which parts the segments of a path on some systems.
pub const BACKSLASH: u8 = 0x5c;

/// `.`, which alone names the directory it stands in, and doubled the one
/// above.
pub const DOT: u8 = 0x2e;

/// What a token must begin with to name a static asset.
pub open spec fn marker() -> Seq<u8> {
    "/static/".spec_bytes()
}

/// The test that a token holds the marker.
pub open spec fn holds_marker() -> spec_fn(Seq<u8>) -> bool {
    |token: Seq<u8>| contains(token, marker())
}

/// `name` is one segment of a path that names something inside the
/// directory it is looked up in: it is not empty, it is neither `.` nor `..`,
/// and it holds no slash, backslash or zero byte.
pub open spec fn confined(name: Seq<u8>) -> bool {
    &&& name.len() > 0
    &&& name != seq![DOT]
    &&& name != seq![DOT, DOT]
    &&& forall|i: int|
        0 <= i < name.len() ==> name[i] != SLASH && name[i] != BACKSLASH && #[trigger] name[i]
            != 0
}

/// Tests whether `name` is confined.
pub fn is_confined(name: &[u8]) -> (r: bool)
    ensures
        r == confined(name@),
{
    if name.len() == 0 {
        return false;
    }
    if name.len() == 1 && name[0] == DOT {
        assert(name@ =~= seq![DOT]);
        return false;
    }
    if name.len() == 2 && name[0] == DOT && name[1] == DOT {
        assert(name@ =~= seq![DOT, DOT]);
        return false;
    }
    assert(name@ != seq![DOT]) by {
        if name@ == seq![DOT] {
            assert(seq![DOT].len() == 1);
            assert(seq![DOT][0] == DOT);
        }
    }
    assert(name@ != seq![DOT, DOT]) by {
        if name@ == seq![DOT, DOT] {
            assert(seq![DOT, DOT].len() == 2);
            assert(seq![DOT, DOT][0] == DOT);
            assert(seq![DOT, DOT][1] == DOT);
        }
    }
    let mut i: usize = 0;
    while i < name.len()
        invariant
            i <= name.len(),
            forall|k: int|
                0 <= k < i ==> name@[k] != SLASH && name@[k] != BACKSLASH && #[trigger] name@[k]
                    != 0,
        decreases name.len() - i,
    {
        if name[i] == SLASH || name[i] == BACKSLASH || name[i] == 0 {
            return false;
        }
        i += 1;
    }
    true
}

/// The asset that `token` names, where `token` is the one that was matched:
/// it must begin with the marker, and the segment that follows the marker, up
/// to the next slash, must be confined.
pub open spec fn asset_of(token: Seq<u8>) -> Option<Seq<u8>> {
    let start = marker().len() as int;
    let name = token.subrange(start, seek(token, start, SLASH));
    if occurs_at(token, marker(), 0) && confined(name) {
        Some(name)
    } else {
        None
    }
}

/// The asset that the request `raw` names: the one named by the first of its
/// tokens that holds the marker. A request without such a token names none.
pub open spec fn asset_name(raw: Seq<u8>) -> Option<Seq<u8>> {
    let parts = tokens(raw);
    let first = first_where(parts, holds_marker(), 0);
    if first < parts.len() {
        asset_of(parts[first])
    } else {
        None
    }
}

/// The response to the request `raw` once the asset it names has been looked
/// up, with `file` what was read or nothing where the read failed: the file
/// under the content type of its name, or the response of `NotFound` where
/// the request names no asset or the read failed.
pub open spec fn static_reply(raw: Seq<u8>, file: Option<Seq<u8>>) -> ResponseView {
    match (asset_name(raw), file) {
        (Some(name), Some(bytes)) => reply(HttpStatus::Success, content_type_of(name), bytes),
        _ => reply(HttpStatus::NotFound, ContentType::Html, NotFound::body()),
    }
}

/// The file that is read lies inside the static root: the name that a request
/// gives to its asset is confined.
pub proof fn lemma_asset_is_confined(raw: Seq<u8>)
    ensures
        asset_name(raw) matches Some(name) ==> confined(name),
{
}

/// A token that goes up from the static root names no asset: one that begins
/// with the marker and goes on with `../`.
pub proof fn lemma_parent_names_nothing(token: Seq<u8>, rest: Seq<u8>)
    requires
        token == marker() + seq![DOT, DOT, SLASH] + rest,
    ensures
        asset_of(token) is None,
{
    let start = marker().len() as int;
    assert(token[start] == DOT);
    assert(token[start + 1] == DOT);
    assert(token[start + 2] == SLASH);
    lemma_first_where_is(token, is_byte(SLASH), start, start + 2);
    assert(token.subrange(start, start + 2) =~= seq![DOT, DOT]);
}

/// A request that names no asset inside the static root is answered as
/// `NotFound` answers, whatever a read would have given.
pub proof fn lemma_unnamed_is_not_found(raw: Seq<u8>, file: Option<Seq<u8>>)
    requires
        asset_name(raw) is None,
    ensures
        static_reply(raw, file) == reply(
            HttpStatus::NotFound,
            ContentType::Html,
            NotFound::body(),
        ),
{
}

/// A file that was read is served as it is: the status is success, the body
/// is the file byte for byte, `Content-Length` is its length in bytes, and
/// `Content-Type` is the type that its name stands for.
pub proof fn lemma_found_is_served(raw: Seq<u8>, file: Seq<u8>)
    requires
        asset_name(raw) is Some,
    ensures
        static_reply(raw, Some(file)).status == HttpStatus::Success,
        static_reply(raw, Some(file)).body == Some(file),
        value_of(static_reply(raw, Some(file)).headers, content_length_name()) == Some(
            decimal(file.len()),
        ),
        value_of(static_reply(raw, Some(file)).headers, content_type_name()) == Some(
            content_type_of(asset_name(raw)->0).mime(),
        ),
{
    lemma_reply(HttpStatus::Success, content_type_of(asset_name(raw)->0), file);
}

/// A file that could not be read is answered as `NotFound` answers.
pub proof fn lemma_missing_is_not_found(raw: Seq<u8>)
    ensures
        static_reply(raw, None) == reply(
            HttpStatus::NotFound,
            ContentType::Html,
            NotFound::body(),
        ),
{
}

/// `Index` answers every call alike: any two of its responses hold the same
/// and are sent as the same bytes.
pub proof fn lemma_index_repeats(first: Response, second: Response)
    requires
        first@ == reply(HttpStatus::Success, ContentType::Html, Index::body()),
        second@ == reply(HttpStatus::Success, ContentType::Html, Index::body()),
    ensures
        first@ == second@,
        first@.wire() == second@.wire(),
{
}

/// `NotFound` answers every call alike: any two of its responses hold the
/// same and are sent as the same bytes.
pub proof fn lemma_not_found_repeats(first: Response, second: Response)
    requires
        first@ == reply(HttpStatus::NotFound, ContentType::Html, NotFound::body()),
        second@ == reply(HttpStatus::NotFound, ContentType::Html, NotFound::body()),
    ensures
        first@ == second@,
        first@.wire() == second@.wire(),
{
}

impl<'a> StaticFile<'a> {
    /// The name of the file to read below the static root, or nothing where
    /// the request names none that lies there.
    pub fn asset_name(&self) -> (name: Option<&'a [u8]>)
        ensures
            match name {
                Some(n) => asset_name(self.path_buf@) == Some(n@) && confined(n@),
                None => asset_name(self.path_buf@) is None,
            },
    {
        let prefix = "/static/".as_bytes();
        let parts = split_tokens(self.path_buf);
        let mut first: usize = 0;
        while first < parts.len() && !contains_bytes(parts[first], prefix)
            invariant
                first <= parts.len(),
                prefix@ == marker(),
                views(parts@) == tokens(self.path_buf@),
                forall|k: int| 0 <= k < first ==> !holds_marker()(#[trigger] views(parts@)[k]),
            decreases parts.len() - first,
        {
            first += 1;
        }
        proof {
            lemma_first_where_is(tokens(self.path_buf@), holds_marker(), 0, first as int);
        }
        if first >= parts.len() {
            return None;
        }
        let token: &[u8] = parts[first];
        assert(token@ == views(parts@)[first as int]);
        if !matches_at(token, prefix, 0) {
            return None;
        }
        let end = seek_byte(token, prefix.len(), SLASH);
        let name = vstd::slice::slice_subrange(token, prefix.len(), end);
        if is_confined(name) {
            Some(name)
        } else {
            None
        }
    }

    /// The response, given what reading the named file gave: `Some` with its
    /// bytes, or `None` where the read failed or was not tried.
    pub fn respond(&self, file: Option<Vec<u8>>) -> (r: Response)
        ensures
            r@ == static_reply(
                self.path_buf@,
                match file {
                    Some(bytes) => Some(bytes@),
                    None => None,
                },
            ),
            r@.wf(),
    {
        match (self.asset_name(), file) {
            (Some(name), Some(bytes)) => reply_with(
                HttpStatus::Success,
                content_type_for(name),
                bytes.as_slice(),
            ),
            _ => NotFound.respond(),
        }
    }
}

} // verus!
