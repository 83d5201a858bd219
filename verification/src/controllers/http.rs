//! Serving files over HTTP, chunk by chunk, with a token that says where to
//! go on.

use vstd::prelude::*;
use vstd::string::{StrSliceExecFns, StringExecFns};

use crate::database::chunks::{chunk_by_order, found_chunks, get_chunk_by_order_id_for_file};
use crate::database::file::get_file;
use crate::identity::Identity;
use crate::models::file::FileType;
use crate::text::{
    append_decimal, chars_of, decimal, lemma_decimal_digits, lemma_parse_decimal, parse_decimal,
    parse_u64,
};
use crate::Canister;

verus! {

/// Where a path leads.
#[derive(Clone, Copy, Debug, PartialEq, Eq, Structural)]
pub enum Route {
    File(u64),
    Other,
}

/// A text without the slashes it starts with.
pub open spec fn skip_leading_slashes(s: Seq<char>) -> Seq<char>
    decreases s.len(),
{
    if s.len() > 0 && s[0] == '/' {
        skip_leading_slashes(s.drop_first())
    } else {
        s
    }
}

/// A text without the slashes it ends with.
pub open spec fn skip_trailing_slashes(s: Seq<char>) -> Seq<char>
    decreases s.len(),
{
    if s.len() > 0 && s.last() == '/' {
        skip_trailing_slashes(s.drop_last())
    } else {
        s
    }
}

/// A path without the slashes around it.
pub open spec fn trim_slashes(s: Seq<char>) -> Seq<char> {
    skip_trailing_slashes(skip_leading_slashes(s))
}

/// The lowercase form of a text, as Unicode defines it.
pub uninterp spec fn lowercase_of(s: Seq<char>) -> Seq<char>;

/// Whether a character is a digit, a small letter of the basic alphabet, or
/// a slash.
pub open spec fn is_plain(c: char) -> bool {
    ('0' <= c && c <= '9') || ('a' <= c && c <= 'z') || c == '/'
}

/// Whether a text holds nothing but digits, small letters of the basic
/// alphabet and slashes.
pub open spec fn all_plain(s: Seq<char>) -> bool {
    forall|i: int| 0 <= i < s.len() ==> is_plain(#[trigger] s[i])
}

/// `str::to_lowercase`: the lowercase form of the text.
#[verifier::external_body]
fn lowercase(s: &str) -> (lowered: String)
    ensures
        lowered@ == lowercase_of(s@),
{
    s.to_lowercase()
}

/// The place where the segment of a path that starts at `from` ends: at the
/// next slash, or at the end of the path.
pub open spec fn segment_end(s: Seq<char>, from: int) -> int
    decreases s.len() - from,
{
    if from >= s.len() {
        s.len() as int
    } else if s[from] == '/' {
        from
    } else {
        segment_end(s, from + 1)
    }
}

/// Where a trimmed path in lowercase leads: to a file where its first
/// segment is `video` or `image` and the segment after it is a number, and
/// nowhere else.
pub open spec fn route_of(s: Seq<char>) -> Route {
    let a = segment_end(s, 0);
    let head = s.subrange(0, a);
    if (head == "video"@ || head == "image"@) && a < s.len() {
        match parse_u64(s.subrange(a + 1, segment_end(s, a + 1))) {
            Some(id) => Route::File(id),
            None => Route::Other,
        }
    } else {
        Route::Other
    }
}

/// Where a path leads: the route of the path without the slashes around it,
/// in lowercase. A path of digits, small letters of the basic alphabet and
/// slashes is in lowercase as it stands.
pub open spec fn route_of_path(path: Seq<char>) -> Route {
    let trimmed = trim_slashes(path);
    if all_plain(trimmed) {
        route_of(trimmed)
    } else {
        route_of(lowercase_of(trimmed))
    }
}

/// A segment ends inside the path, at or after its start.
pub proof fn lemma_segment_end(s: Seq<char>, from: int)
    requires
        0 <= from <= s.len(),
    ensures
        from <= segment_end(s, from) <= s.len(),
        segment_end(s, from) < s.len() ==> s[segment_end(s, from)] == '/',
        forall|i: int| from <= i < segment_end(s, from) ==> s[i] != '/',
    decreases s.len() - from,
{
    if from < s.len() && s[from] != '/' {
        lemma_segment_end(s, from + 1);
    }
}

fn find_segment_end(s: &Vec<char>, from: usize) -> (end: usize)
    requires
        from <= s@.len(),
    ensures
        end == segment_end(s@, from as int),
        from <= end <= s@.len(),
{
    let mut i: usize = from;
    while i < s.len() && s[i] != '/'
        invariant
            from <= i <= s@.len(),
            segment_end(s@, from as int) == segment_end(s@, i as int),
        decreases s@.len() - i,
    {
        i += 1;
    }
    i
}

fn segment_is(s: &Vec<char>, end: usize, word: &str) -> (r: bool)
    requires
        end <= s@.len(),
    ensures
        r == (s@.subrange(0, end as int) == word@),
{
    let w = chars_of(word);
    if w.len() != end {
        return false;
    }
    let mut i: usize = 0;
    while i < end
        invariant
            i <= end <= s@.len(),
            w@.len() == end,
            w@ == word@,
            forall|j: int| 0 <= j < i ==> s@[j] == w@[j],
        decreases end - i,
    {
        if s[i] != w[i] {
            assert(s@.subrange(0, end as int)[i as int] != w@[i as int]);
            return false;
        }
        i += 1;
    }
    assert(s@.subrange(0, end as int) =~= w@);
    true
}

/// Where a trimmed path in lowercase leads.
pub fn route_from_lowercase(path: &Vec<char>) -> (r: Route)
    ensures
        r == route_of(path@),
{
    let a: usize = find_segment_end(path, 0);
    if (segment_is(path, a, "video") || segment_is(path, a, "image")) && a < path.len() {
        let b: usize = find_segment_end(path, a + 1);
        match parse_decimal(path, a + 1, b) {
            Some(id) => Route::File(id),
            None => Route::Other,
        }
    } else {
        Route::Other
    }
}

fn trim_bounds(s: &Vec<char>) -> (r: (usize, usize))
    ensures
        r.0 <= r.1 <= s@.len(),
        s@.subrange(r.0 as int, r.1 as int) == trim_slashes(s@),
{
    let len: usize = s.len();
    let mut from: usize = 0;
    assert(s@.subrange(0, len as int) =~= s@);
    while from < len && s[from] == '/'
        invariant
            from <= len == s@.len(),
            skip_leading_slashes(s@) == skip_leading_slashes(s@.subrange(from as int, len as int)),
        decreases len - from,
    {
        assert(s@.subrange(from as int, len as int).drop_first() =~= s@.subrange(
            from + 1,
            len as int,
        ));
        from += 1;
    }
    assert(skip_leading_slashes(s@) == s@.subrange(from as int, len as int));
    let mut to: usize = len;
    while to > from && s[to - 1] == '/'
        invariant
            from <= to <= len == s@.len(),
            trim_slashes(s@) == skip_trailing_slashes(s@.subrange(from as int, to as int)),
        decreases to,
    {
        assert(s@.subrange(from as int, to as int).drop_last() =~= s@.subrange(
            from as int,
            to - 1,
        ));
        to -= 1;
    }
    (from, to)
}

fn is_all_plain(s: &Vec<char>, from: usize, to: usize) -> (r: bool)
    requires
        from <= to <= s@.len(),
    ensures
        r == all_plain(s@.subrange(from as int, to as int)),
{
    let mut i: usize = from;
    while i < to
        invariant
            from <= i <= to <= s@.len(),
            forall|j: int| from <= j < i ==> is_plain(#[trigger] s@[j]),
        decreases to - i,
    {
        let c = s[i];
        if !((c >= '0' && c <= '9') || (c >= 'a' && c <= 'z') || c == '/') {
            assert(!is_plain(s@.subrange(from as int, to as int)[i - from]));
            return false;
        }
        i += 1;
    }
    assert forall|j: int| 0 <= j < to - from implies is_plain(
        #[trigger] s@.subrange(from as int, to as int)[j],
    ) by {
        assert(is_plain(s@[from + j]));
    }
    true
}

/// A copy of the characters of `s` from `from` up to `to`.
fn copy_chars(s: &Vec<char>, from: usize, to: usize) -> (r: Vec<char>)
    requires
        from <= to <= s@.len(),
    ensures
        r@ == s@.subrange(from as int, to as int),
{
    let mut r: Vec<char> = Vec::new();
    let mut i: usize = from;
    while i < to
        invariant
            from <= i <= to <= s@.len(),
            r@ == s@.subrange(from as int, i as int),
        decreases to - i,
    {
        r.push(s[i]);
        assert(r@ =~= s@.subrange(from as int, i + 1));
        i += 1;
    }
    r
}

/// Where a path leads. The slashes around the path and the case of its
/// letters count for nothing.
pub fn extract_route(path: &str) -> (r: Route)
    ensures
        r == route_of_path(path@),
{
    let chars = chars_of(path);
    let (from, to) = trim_bounds(&chars);
    if is_all_plain(&chars, from, to) {
        route_from_lowercase(&copy_chars(&chars, from, to))
    } else {
        let lowered = lowercase(path.substring_char(from, to));
        route_from_lowercase(&chars_of(lowered.as_str()))
    }
}

/// What a token holds: the path of the file, and the place of the chunk that
/// comes next.
#[derive(Debug)]
pub struct Token {
    pub key: String,
    pub content_encoding: String,
    pub index: u64,
    pub sha256: Option<Vec<u8>>,
}

/// What a token holds.
#[verifier::ext_equal]
pub struct TokenView {
    pub key: Seq<char>,
    pub content_encoding: Seq<char>,
    pub index: u64,
    pub sha256: Option<Seq<u8>>,
}

impl View for Token {
    type V = TokenView;

    open spec fn view(&self) -> TokenView {
        TokenView {
            key: self.key@,
            content_encoding: self.content_encoding@,
            index: self.index,
            sha256: match self.sha256 {
                Some(h) => Some(h@),
                None => None,
            },
        }
    }
}

/// The method of a process that a reader calls to go on.
#[derive(Debug)]
pub struct Func {
    pub principal: Identity,
    pub method: String,
}

/// How the rest of a body is fetched.
#[derive(Debug)]
pub enum StreamingStrategy {
    Callback { callback: Func, token: Token },
}

/// What a strategy holds: the process and its method to call, and the token
/// to hand to it.
#[verifier::ext_equal]
pub struct StreamingStrategyView {
    pub principal: Seq<u8>,
    pub method: Seq<char>,
    pub token: TokenView,
}

impl View for StreamingStrategy {
    type V = StreamingStrategyView;

    open spec fn view(&self) -> StreamingStrategyView {
        match self {
            StreamingStrategy::Callback { callback, token } => StreamingStrategyView {
                principal: callback.principal@,
                method: callback.method@,
                token: token@,
            },
        }
    }
}

/// A header: its name and its value.
#[derive(Debug)]
pub struct HeaderField(pub String, pub String);

/// A request as it comes in.
#[derive(Debug)]
pub struct HttpRequest {
    pub method: String,
    pub url: String,
    pub headers: Vec<(String, String)>,
    pub body: Vec<u8>,
}

/// A response as it goes out.
#[derive(Debug)]
pub struct HttpResponse {
    pub status_code: u16,
    pub headers: Vec<HeaderField>,
    pub body: Vec<u8>,
    pub streaming_strategy: Option<StreamingStrategy>,
}

/// What a response holds.
#[verifier::ext_equal]
pub struct HttpResponseView {
    pub status_code: u16,
    pub headers: Seq<(Seq<char>, Seq<char>)>,
    pub body: Seq<u8>,
    pub streaming_strategy: Option<StreamingStrategyView>,
}

impl View for HttpResponse {
    type V = HttpResponseView;

    open spec fn view(&self) -> HttpResponseView {
        HttpResponseView {
            status_code: self.status_code,
            headers: Seq::new(
                self.headers@.len(),
                |i: int| (self.headers@[i].0@, self.headers@[i].1@),
            ),
            body: self.body@,
            streaming_strategy: match self.streaming_strategy {
                Some(s) => Some(s@),
                None => None,
            },
        }
    }
}

/// The answer to a reader who goes on: the next chunk, and the token for the
/// one after it.
#[derive(Debug)]
pub struct StreamingCallbackHttpResponse {
    pub body: Vec<u8>,
    pub token: Option<Token>,
}

/// What such an answer holds.
#[verifier::ext_equal]
pub struct StreamingCallbackHttpResponseView {
    pub body: Seq<u8>,
    pub token: Option<TokenView>,
}

impl View for StreamingCallbackHttpResponse {
    type V = StreamingCallbackHttpResponseView;

    open spec fn view(&self) -> StreamingCallbackHttpResponseView {
        StreamingCallbackHttpResponseView {
            body: self.body@,
            token: match self.token {
                Some(t) => Some(t@),
                None => None,
            },
        }
    }
}

/// A response with nothing but its status.
pub open spec fn bare_response(code: u16) -> HttpResponseView {
    HttpResponseView {
        status_code: code,
        headers: Seq::empty(),
        body: Seq::empty(),
        streaming_strategy: None,
    }
}

/// A response that sends the reader to `location`, to be remembered for
/// `max_age` seconds where that is given.
pub open spec fn moved_response(status_code: u16, location: Seq<char>, max_age: Option<u32>)
    -> HttpResponseView {
    HttpResponseView {
        status_code,
        headers: match max_age {
            Some(age) => seq![
                ("Location"@, location),
                ("Cache-Control"@, "public, max-age="@ + decimal(age as nat)),
            ],
            None => seq![("Location"@, location)],
        },
        body: Seq::empty(),
        streaming_strategy: None,
    }
}

/// The place of the first header of a request whose name is `key`, the case
/// of letters left aside.
pub open spec fn header_place(headers: Seq<(String, String)>, key: Seq<char>, i: int) -> bool {
    &&& 0 <= i < headers.len()
    &&& lowercase_of(headers[i].0@) == lowercase_of(key)
    &&& forall|j: int| 0 <= j < i ==> lowercase_of((#[trigger] headers[j]).0@) != lowercase_of(key)
}

impl HttpRequest {
    /// The value of the first header whose name is `key`, the case of
    /// letters left aside.
    pub fn _header(&self, key: &str) -> (r: Option<&String>)
        ensures
            r matches Some(v) ==> exists|i: int|
                header_place(self.headers@, key@, i) && *v == (#[trigger] self.headers@[i]).1,
            r is None ==> forall|i: int|
                0 <= i < self.headers@.len() ==> lowercase_of((#[trigger] self.headers@[i]).0@)
                    != lowercase_of(key@),
    {
        let key_lower = lowercase(key);
        let mut i: usize = 0;
        while i < self.headers.len()
            invariant
                i <= self.headers@.len(),
                key_lower@ == lowercase_of(key@),
                forall|j: int|
                    0 <= j < i ==> lowercase_of((#[trigger] self.headers@[j]).0@) != lowercase_of(
                        key@,
                    ),
            decreases self.headers@.len() - i,
        {
            if lowercase(self.headers[i].0.as_str()) == key_lower {
                assert(header_place(self.headers@, key@, i as int));
                return Some(&self.headers[i].1);
            }
            i += 1;
        }
        None
    }
}

impl HttpResponse {
    /// A response with nothing but the status `code`.
    pub fn status_code(code: u16) -> (r: HttpResponse)
        ensures
            r@ == bare_response(code),
    {
        let r = HttpResponse {
            status_code: code,
            headers: Vec::new(),
            body: Vec::new(),
            streaming_strategy: None,
        };
        assert(r@ =~= bare_response(code));
        r
    }

    /// The response for what is gone for good.
    pub fn _gone() -> (r: HttpResponse)
        ensures
            r@ == bare_response(410),
    {
        HttpResponse::status_code(410)
    }

    /// The response for what is not there.
    pub fn not_found() -> (r: HttpResponse)
        ensures
            r@ == bare_response(404),
    {
        HttpResponse::status_code(404)
    }

    /// The response for what has moved for good.
    pub fn _moved_permanently(location: &str) -> (r: HttpResponse)
        ensures
            r@ == moved_response(301, location@, None),
    {
        HttpResponse::_moved(301, location, None)
    }

    /// The response for what has moved for a while.
    pub fn _moved_temporarily(location: &str, max_age: Option<u32>) -> (r: HttpResponse)
        ensures
            r@ == moved_response(302, location@, max_age),
    {
        HttpResponse::_moved(302, location, max_age)
    }

    fn _moved(status_code: u16, location: &str, max_age: Option<u32>) -> (r: HttpResponse)
        ensures
            r@ == moved_response(status_code, location@, max_age),
    {
        let mut headers: Vec<HeaderField> = Vec::new();
        headers.push(HeaderField(String::from_str("Location"), String::from_str(location)));
        match max_age {
            Some(age) => {
                let mut value = String::from_str("public, max-age=");
                append_decimal(&mut value, age as u64);
                headers.push(HeaderField(String::from_str("Cache-Control"), value));
            },
            None => {},
        }
        let r = HttpResponse { status_code, headers, body: Vec::new(), streaming_strategy: None };
        assert(r@ =~= moved_response(status_code, location@, max_age));
        r
    }
}

/// The path that a token holds for the file `blob_id` of kind `file_type`.
pub open spec fn token_key(file_type: FileType, blob_id: u64) -> Seq<char> {
    file_type.slug() + "/"@ + decimal(blob_id as nat)
}

/// The token for the chunk at place `index` of a file.
pub open spec fn token_for(file_type: FileType, blob_id: u64, index: u64) -> TokenView {
    TokenView {
        key: token_key(file_type, blob_id),
        content_encoding: Seq::empty(),
        index,
        sha256: None,
    }
}

/// The token for the chunk at place `index` of the file `blob_id`.
pub fn build_token(file_type: FileType, blob_id: u64, index: u64) -> (token: Token)
    ensures
        token@ == token_for(file_type, blob_id, index),
{
    let mut key = String::from_str(file_type.url_slug());
    key.append("/");
    append_decimal(&mut key, blob_id);
    let token = Token { key, content_encoding: String::new(), index, sha256: None };
    assert(token@ =~= token_for(file_type, blob_id, index));
    token
}

/// The path of a token leads to the file it was made for, whatever slashes
/// stand around it.
pub proof fn lemma_token_route(file_type: FileType, blob_id: u64)
    ensures
        all_plain(token_key(file_type, blob_id)),
        trim_slashes(token_key(file_type, blob_id)) == token_key(file_type, blob_id),
        route_of(token_key(file_type, blob_id)) == Route::File(blob_id),
        route_of_path(token_key(file_type, blob_id)) == Route::File(blob_id),
{
    let slug = file_type.slug();
    let digits = decimal(blob_id as nat);
    let key = token_key(file_type, blob_id);
    reveal_strlit("video");
    reveal_strlit("image");
    reveal_strlit("/");
    lemma_decimal_digits(blob_id as nat);
    lemma_parse_decimal(blob_id);
    assert(slug.len() == 5);
    assert(key.len() == 6 + digits.len());
    assert(forall|i: int| 0 <= i < 5 ==> key[i] == slug[i]);
    assert(key[5] == '/');
    assert(forall|i: int| 0 <= i < digits.len() ==> key[6 + i] == digits[i]);
    assert forall|i: int| 0 <= i < key.len() implies is_plain(#[trigger] key[i]) by {
        if i >= 6 {
            assert(key[i] == digits[i - 6]);
            assert(crate::text::is_digit(digits[i - 6]));
        }
    }
    assert(key[0] != '/');
    assert(key.last() == digits[digits.len() - 1]);
    assert(crate::text::is_digit(digits[digits.len() - 1]));
    assert(skip_leading_slashes(key) == key);
    assert(skip_trailing_slashes(key) == key);
    assert(segment_end(key, 0) == 5) by {
        reveal_with_fuel(segment_end, 7);
    }
    assert(key.subrange(0, 5) =~= slug);
    lemma_segment_end(key, 6);
    let b = segment_end(key, 6);
    assert(b == key.len()) by {
        if b < key.len() {
            assert(key[b] == digits[b - 6]);
            assert(crate::text::is_digit(digits[b - 6]));
        }
    }
    assert(key.subrange(6, b) =~= digits);
}

/// The value of the header that lets a reader keep what it was served.
pub open spec fn cache_header() -> Seq<char> {
    "public, max-age=100000000, immutable"@
}

/// The first answer to a reader of the file `file_id`, where the file is
/// stored and has a chunk at place 0: that chunk, and where the file has
/// declared more chunks than one, the way to go on with the chunk at place 1.
pub open spec fn first_answer(
    canister_id: Seq<u8>,
    file: crate::models::file::FileView,
    file_id: u64,
    body: Seq<u8>,
) -> HttpResponseView {
    HttpResponseView {
        status_code: 200,
        headers: seq![
            ("Content-Type"@, file.file_type.mime()),
            ("Cache-Control"@, cache_header()),
            ("Access-Control-Allow-Origin"@, "*"@),
        ],
        body,
        streaming_strategy: if file.number_of_chunks > 1 {
            Some(
                StreamingStrategyView {
                    principal: canister_id,
                    method: "http_request_streaming_callback"@,
                    token: token_for(file.file_type, file_id, 1),
                },
            )
        } else {
            None
        },
    }
}

/// What a reader of the file `file_id` is served first.
pub open spec fn start_of(canister: &Canister, file_id: u64) -> HttpResponseView {
    if canister.db.files@.dom().contains(file_id) {
        let file = canister.db.files@[file_id];
        match chunk_by_order(found_chunks(canister.db.chunks@, file.chunk_ids), 0) {
            Some(chunk) => first_answer(
                canister.deployment.canister@,
                file,
                file_id,
                chunk.chunk_data,
            ),
            None => bare_response(404),
        }
    } else {
        bare_response(404)
    }
}

/// Starts to serve the file `file_id`.
pub fn start_streaming_file(canister: &Canister, file_id: u64) -> (r: HttpResponse)
    ensures
        r@ == start_of(canister, file_id),
{
    match get_file(&canister.db.files, &file_id) {
        Some(file) => {
            match get_chunk_by_order_id_for_file(&canister.db.chunks, &file, 0) {
                Some(chunk) => {
                    let streaming_strategy = if file.number_of_chunks > 1 {
                        Some(
                            StreamingStrategy::Callback {
                                callback: Func {
                                    principal: canister.deployment.canister.clone(),
                                    method: String::from_str("http_request_streaming_callback"),
                                },
                                token: build_token(file.file_type, file_id, 1),
                            },
                        )
                    } else {
                        None
                    };
                    let mut headers: Vec<HeaderField> = Vec::new();
                    headers.push(
                        HeaderField(
                            String::from_str("Content-Type"),
                            String::from_str(file.file_type.as_str()),
                        ),
                    );
                    headers.push(
                        HeaderField(
                            String::from_str("Cache-Control"),
                            String::from_str("public, max-age=100000000, immutable"),
                        ),
                    );
                    headers.push(
                        HeaderField(
                            String::from_str("Access-Control-Allow-Origin"),
                            String::from_str("*"),
                        ),
                    );
                    let response = HttpResponse {
                        status_code: 200,
                        headers,
                        body: chunk.chunk_data,
                        streaming_strategy,
                    };
                    assert(response@ =~= start_of(canister, file_id));
                    response
                },
                None => HttpResponse::not_found(),
            }
        },
        None => HttpResponse::not_found(),
    }
}

/// The answer to a request: the start of the file that its path leads to,
/// and 404 where it leads to none.
pub fn http_request(canister: &Canister, request: &HttpRequest) -> (r: HttpResponse)
    ensures
        r@ == match route_of_path(request.url@) {
            Route::File(file_id) => start_of(canister, file_id),
            Route::Other => bare_response(404),
        },
{
    match extract_route(request.url.as_str()) {
        Route::File(file_id) => start_streaming_file(canister, file_id),
        _ => HttpResponse::not_found(),
    }
}

/// The answer that ends a reading: no bytes, and no token.
pub open spec fn done() -> StreamingCallbackHttpResponseView {
    StreamingCallbackHttpResponseView { body: Seq::empty(), token: None }
}

/// What a reader who goes on at the place `index` of the file that `route`
/// leads to is served: the chunk at that place, and a token for the next
/// place as long as `index` is no larger than the count of chunks that the
/// file declared. Where there is no such file or chunk, the reading is done.
pub open spec fn continuation_of(canister: &Canister, route: Route, index: u64)
    -> StreamingCallbackHttpResponseView {
    match route {
        Route::File(file_id) => if canister.db.files@.dom().contains(file_id) {
            let file = canister.db.files@[file_id];
            match chunk_by_order(found_chunks(canister.db.chunks@, file.chunk_ids), index) {
                Some(chunk) => StreamingCallbackHttpResponseView {
                    body: chunk.chunk_data,
                    token: if index <= file.number_of_chunks && index < u64::MAX {
                        Some(token_for(file.file_type, file_id, (index + 1) as u64))
                    } else {
                        None
                    },
                },
                None => done(),
            }
        } else {
            done()
        },
        Route::Other => done(),
    }
}

/// Serves the chunk at the place `index` of the file that `route` leads to.
pub fn continue_from_route(canister: &Canister, route: Route, index: u64) -> (r:
    StreamingCallbackHttpResponse)
    ensures
        r@ == continuation_of(canister, route, index),
{
    if let Route::File(file_id) = route {
        if let Some(file) = get_file(&canister.db.files, &file_id) {
            if let Some(chunk) = get_chunk_by_order_id_for_file(&canister.db.chunks, &file, index) {
                let token = if index <= file.number_of_chunks && index < u64::MAX {
                    Some(build_token(file.file_type, file_id, index + 1))
                } else {
                    None
                };
                let r = StreamingCallbackHttpResponse { body: chunk.chunk_data, token };
                assert(r@ =~= continuation_of(canister, route, index));
                return r;
            }
        }
    }
    let r = StreamingCallbackHttpResponse { body: Vec::new(), token: None };
    assert(r@ =~= done());
    r
}

/// Goes on with the reading that `token` stands for: with the chunk at the
/// token's place of the file that the token's path leads to. A token that
/// was made for a file leads back to that file.
pub fn continue_streaming_file(canister: &Canister, token: Token) -> (r:
    StreamingCallbackHttpResponse)
    ensures
        r@ == continuation_of(canister, route_of_path(token.key@), token.index),
        forall|file_type: FileType, file_id: u64|
            token.key@ == #[trigger] token_key(file_type, file_id) ==> r@ == continuation_of(
                canister,
                Route::File(file_id),
                token.index,
            ),
{
    proof {
        assert forall|file_type: FileType, file_id: u64|
            token.key@ == #[trigger] token_key(file_type, file_id) implies route_of_path(
            token.key@,
        ) == Route::File(file_id) by {
            lemma_token_route(file_type, file_id);
        }
    }
    let route = extract_route(token.key.as_str());
    continue_from_route(canister, route, token.index)
}

/// Goes on with the reading that `token` stands for.
pub fn http_request_streaming_callback(canister: &Canister, token: Token) -> (r:
    StreamingCallbackHttpResponse)
    ensures
        r@ == continuation_of(canister, route_of_path(token.key@), token.index),
        forall|file_type: FileType, file_id: u64|
            token.key@ == #[trigger] token_key(file_type, file_id) ==> r@ == continuation_of(
                canister,
                Route::File(file_id),
                token.index,
            ),
{
    continue_streaming_file(canister, token)
}

} // verus!
