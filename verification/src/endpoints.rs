//! What the server answers.
//!
//! The functions here take what a registry or the upstream server said, and make the
//! answer of it. Requests arrive on two ways: through the web server, which is answered
//! with a `Reply`, and through the proxy, which is answered with an `InternalResponse`.

use vstd::prelude::*;
use vstd::utf8::*;

use crate::outside;
use crate::publish_body::{parse_publish_body, ParseError};
use crate::publish_body;
use crate::registry::index;
use crate::registry::index::{write_lines, Writing};
use crate::registry::RegistryError;
use crate::text;
use crate::text::{eq_ignore_ascii_case, join_strings, same_text};
use crate::types::{
    IndexEntry, PublishMetadata, PublishResponse, PublishWarnings, RegistryConfig,
};

verus! {

/// An answer to a request that came through the proxy.
pub struct InternalResponse {
    pub status: u16,
    pub headers: Vec<(String, String)>,
    pub body: Vec<u8>,
}

/// What an `InternalResponse` says.
pub struct ResponseView {
    pub status: u16,
    pub headers: Seq<(Seq<char>, Seq<char>)>,
    pub body: Seq<u8>,
}

/// The names and values of headers.
pub open spec fn header_views(headers: Seq<(String, String)>) -> Seq<(Seq<char>, Seq<char>)> {
    headers.map_values(|h: (String, String)| (h.0@, h.1@))
}

impl View for InternalResponse {
    type V = ResponseView;

    open spec fn view(&self) -> ResponseView {
        ResponseView {
            status: self.status,
            headers: header_views(self.headers@),
            body: self.body@,
        }
    }
}

/// A response with a content type and no other header.
pub open spec fn plain_response(status: u16, content_type: Seq<char>, body: Seq<u8>) -> ResponseView {
    ResponseView { status, headers: seq![("content-type"@, content_type)], body }
}

/// A response that holds JSON.
pub open spec fn json_response(json: Seq<char>) -> ResponseView {
    plain_response(200, "application/json"@, encode_utf8(json))
}

/// A response that tells what went wrong.
pub open spec fn error_response(status: u16, message: Seq<char>) -> ResponseView {
    plain_response(status, "text/plain"@, encode_utf8(message))
}

impl InternalResponse {
    /// A response with a content type.
    fn typed(status: u16, content_type: &str, body: Vec<u8>) -> (r: InternalResponse)
        ensures
            r@ == plain_response(status, content_type@, body@),
    {
        let mut headers: Vec<(String, String)> = Vec::new();
        headers.push((String::from_str("content-type"), String::from_str(content_type)));
        let r = InternalResponse { status, headers, body };
        assert(r@.headers =~= seq![("content-type"@, content_type@)]);
        r
    }

    /// A response that holds JSON.
    pub fn ok_json(body: &str) -> (r: InternalResponse)
        ensures
            r@ == json_response(body@),
    {
        InternalResponse::typed(200, "application/json", body.as_bytes_vec())
    }

    /// A response that holds a crate file.
    pub fn ok_gzip(body: Vec<u8>) -> (r: InternalResponse)
        ensures
            r@ == plain_response(200, "application/gzip"@, body@),
    {
        InternalResponse::typed(200, "application/gzip", body)
    }

    /// A response that tells what went wrong.
    pub fn error(status: u16, message: &str) -> (r: InternalResponse)
        ensures
            r@ == error_response(status, message@),
    {
        InternalResponse::typed(status, "text/plain", message.as_bytes_vec())
    }
}

/// What an answer holds.
pub enum Content {
    Json(String),
    Gzip(Vec<u8>),
    Text(String),
}

/// An answer to a request that came through the web server.
pub struct Reply {
    pub status: u16,
    pub content: Content,
}

impl Reply {
    /// An answer that holds JSON.
    pub open spec fn is_json(self, json: Seq<char>) -> bool {
        &&& self.status == 200
        &&& self.content matches Content::Json(j)
        &&& j@ == json
    }

    /// An answer that holds a crate file.
    pub open spec fn is_gzip(self, data: Seq<u8>) -> bool {
        &&& self.status == 200
        &&& self.content matches Content::Gzip(d)
        &&& d@ == data
    }

    /// An answer that tells what went wrong.
    pub open spec fn is_text(self, status: u16, message: Seq<char>) -> bool {
        &&& self.status == status
        &&& self.content matches Content::Text(t)
        &&& t@ == message
    }

    /// An answer that tells what went wrong: `before` and what the error says.
    pub open spec fn tells(self, status: u16, before: Seq<char>, error: RegistryError) -> bool {
        exists|own: Seq<char>| #[trigger] error.says(own) && self.is_text(status, before + own)
    }

    /// The same answer to a request that came through the proxy.
    pub open spec fn as_response(self) -> ResponseView {
        match self.content {
            Content::Json(j) => plain_response(
                self.status,
                "application/json"@,
                encode_utf8(j@),
            ),
            Content::Gzip(d) => plain_response(self.status, "application/gzip"@, d@),
            Content::Text(t) => plain_response(self.status, "text/plain"@, encode_utf8(t@)),
        }
    }

    /// Tells what went wrong.
    fn text(status: u16, message: &str) -> (r: Reply)
        ensures
            r.is_text(status, message@),
    {
        Reply { status, content: Content::Text(String::from_str(message)) }
    }

    /// Tells what went wrong: `before` and what the error says.
    fn failure(status: u16, before: &str, error: &RegistryError) -> (r: Reply)
        ensures
            r.tells(status, before@, *error),
    {
        let own = error.to_string();
        assert(error.says(own@));
        Reply { status, content: Content::Text(String::from_str(before).concat(own.as_str())) }
    }

    /// The content type under which the web server answers.
    pub fn content_type(&self) -> (content_type: &'static str)
        ensures
            content_type@ == match self.content {
                Content::Json(_) => "application/json"@,
                Content::Gzip(_) => "application/gzip"@,
                Content::Text(_) => "text/plain; charset=utf-8"@,
            },
    {
        match &self.content {
            Content::Json(_) => "application/json",
            Content::Gzip(_) => "application/gzip",
            Content::Text(_) => "text/plain; charset=utf-8",
        }
    }

    /// The same answer to a request that came through the proxy.
    pub fn into_internal(self) -> (r: InternalResponse)
        ensures
            r@ == self.as_response(),
    {
        match self.content {
            Content::Json(j) => InternalResponse::typed(
                self.status,
                "application/json",
                j.as_str().as_bytes_vec(),
            ),
            Content::Gzip(d) => InternalResponse::typed(self.status, "application/gzip", d),
            Content::Text(t) => InternalResponse::typed(
                self.status,
                "text/plain",
                t.as_str().as_bytes_vec(),
            ),
        }
    }
}

/// What the server says of itself, under this address: crates are downloaded from it,
/// and its API is there.
pub open spec fn is_config(config: RegistryConfig, proxy_base_url: Seq<char>) -> bool {
    &&& config.dl@ == proxy_base_url + "/api/v1/crates"@
    &&& config.api@ == proxy_base_url
    &&& config.auth_required is None
}

/// What the server says of itself.
pub fn proxy_config(proxy_base_url: &str) -> (config: RegistryConfig)
    ensures
        is_config(config, proxy_base_url@),
{
    RegistryConfig {
        dl: String::from_str(proxy_base_url).concat("/api/v1/crates"),
        api: String::from_str(proxy_base_url),
        auth_required: None,
    }
}

/// Answers a request for `config.json`. `encode` writes JSON.
pub fn handle_config<E: FnOnce(RegistryConfig) -> String>(
    proxy_base_url: &str,
    encode: E,
) -> (reply: Reply)
    requires
        forall|c: RegistryConfig| #[trigger] call_requires(encode, (c,)),
    ensures
        exists|config: RegistryConfig, json: String|
            is_config(config, proxy_base_url@) && #[trigger] call_ensures(encode, (config,), json)
                && reply.is_json(json@),
{
    let config = proxy_config(proxy_base_url);
    let json = encode(config);
    Reply { status: 200, content: Content::Json(json) }
}

/// Answers a request for `config.json` that came through the proxy.
pub fn internal_handle_config<E: FnOnce(RegistryConfig) -> String>(
    proxy_base_url: &str,
    encode: E,
) -> (response: InternalResponse)
    requires
        forall|c: RegistryConfig| #[trigger] call_requires(encode, (c,)),
    ensures
        exists|config: RegistryConfig, json: String|
            is_config(config, proxy_base_url@) && #[trigger] call_ensures(encode, (config,), json)
                && response@ == json_response(json@),
{
    handle_config(proxy_base_url, encode).into_internal()
}

/// What `write` may give for each of a list of entries.
pub open spec fn may_write_all<W: Fn(&IndexEntry) -> Option<String>>(
    write: W,
    entries: Seq<IndexEntry>,
    written: Seq<Option<String>>,
) -> bool {
    &&& written.len() == entries.len()
    &&& forall|i: int|
        0 <= i < entries.len() ==> call_ensures(
            write,
            (#[trigger] &entries[i],),
            #[trigger] written[i],
        )
}

/// Whether `write` gives for every entry the line that `writing` says.
pub open spec fn writes_as<W: Fn(&IndexEntry) -> Option<String>>(
    write: W,
    writing: Writing,
) -> bool {
    forall|e: &IndexEntry, line: Option<String>| #[trigger]
        call_ensures(write, (e,), line) ==> line is Some && line->0@ == writing(*e)
}

/// Whether `content` holds a list of entries, one per line, where `write` writes the lines.
pub open spec fn is_written<W: Fn(&IndexEntry) -> Option<String>>(
    content: Seq<char>,
    entries: Seq<IndexEntry>,
    write: W,
) -> bool {
    &&& exists|written: Seq<Option<String>>| #[trigger]
        may_write_all(write, entries, written) && content == index::file_of(
            written_lines(written),
        )
    &&& forall|writing: Writing| #[trigger]
        writes_as(write, writing) ==> content == index::file_of(entries.map_values(writing))
}

/// The lines that could be written, in order.
pub open spec fn written_lines(written: Seq<Option<String>>) -> Seq<Seq<char>>
    decreases written.len(),
{
    if written.len() == 0 {
        Seq::empty()
    } else {
        match written.last() {
            Some(line) => written_lines(written.drop_last()).push(line@),
            None => written_lines(written.drop_last()),
        }
    }
}

/// Puts the lines that could be written into one text.
pub fn join_written(written: Vec<Option<String>>) -> (content: String)
    ensures
        content@ == index::file_of(written_lines(written@)),
{
    let ghost all = written@;
    let mut lines: Vec<String> = Vec::new();
    assert(text::views(lines@) =~= written_lines(all.take(0)));
    for line in it: written
        invariant
            it.seq() == all,
            text::views(lines@) == written_lines(all.take(it.index())),
    {
        let ghost before = text::views(lines@);
        proof {
            assert(all.take(it.index() + 1).drop_last() =~= all.take(it.index()));
        }
        if let Some(l) = line {
            lines.push(l);
            assert(text::views(lines@) =~= before.push(l@));
        }
    }
    assert(all.take(all.len() as int) =~= all);
    write_lines(&lines)
}

/// Writes index entries as cargo's sparse protocol wants them: one JSON object per line.
/// `write` makes the line of an entry; an entry it gives no line for is left out.
pub fn serialize_index_entries<W: Fn(&IndexEntry) -> Option<String>>(
    entries: &[IndexEntry],
    write: W,
) -> (content: String)
    requires
        forall|e: &IndexEntry| #[trigger] call_requires(write, (e,)),
    ensures
        is_written(content@, entries@, write),
{
    let mut written: Vec<Option<String>> = Vec::new();
    let mut i: usize = 0;
    while i < entries.len()
        invariant
            i <= entries@.len(),
            written@.len() == i,
            forall|e: &IndexEntry| #[trigger] call_requires(write, (e,)),
            forall|k: int|
                0 <= k < i ==> call_ensures(
                    write,
                    (#[trigger] &entries@[k],),
                    #[trigger] written@[k],
                ),
        decreases entries@.len() - i,
    {
        let line = write(&entries[i]);
        written.push(line);
        i = i + 1;
    }
    proof {
        assert(may_write_all(write, entries@, written@));
        assert forall|writing: Writing| #[trigger] writes_as(write, writing) implies written_lines(
            written@,
        ) == entries@.map_values(writing) by {
            lemma_steadily_written(write, writing, entries@, written@);
        }
    }
    join_written(written)
}

/// A steady writer gives the lines that its writing says.
proof fn lemma_steadily_written<W: Fn(&IndexEntry) -> Option<String>>(
    write: W,
    writing: Writing,
    entries: Seq<IndexEntry>,
    written: Seq<Option<String>>,
)
    requires
        writes_as(write, writing),
        may_write_all(write, entries, written),
    ensures
        written_lines(written) == entries.map_values(writing),
    decreases entries.len(),
{
    if entries.len() > 0 {
        let n = entries.len() - 1;
        let rest = entries.drop_last();
        let before = written.drop_last();
        assert forall|i: int| 0 <= i < rest.len() implies call_ensures(
            write,
            (#[trigger] &rest[i],),
            #[trigger] before[i],
        ) by {
            assert(call_ensures(write, (&entries[i],), written[i]));
        }
        lemma_steadily_written(write, writing, rest, before);
        assert(call_ensures(write, (&entries[n],), written[n]));
        assert(rest.map_values(writing).push(writing(entries[n])) =~= entries.map_values(writing));
    } else {
        assert(written_lines(written) =~= entries.map_values(writing));
    }
}

/// The entries that could be written, in order.
pub open spec fn written_entries(
    entries: Seq<IndexEntry>,
    written: Seq<Option<String>>,
) -> Seq<IndexEntry>
    decreases entries.len(),
{
    if entries.len() == 0 {
        Seq::empty()
    } else {
        let before = written_entries(entries.drop_last(), written.drop_last());
        if written.last() is Some {
            before.push(entries.last())
        } else {
            before
        }
    }
}

/// A client that can read single lines reads what a lookup is answered with: it finds what
/// the lines hold, in order. `held` is what the line of each entry holds.
pub proof fn law_served_entries_are_read(
    held: Seq<IndexEntry>,
    written: Seq<Option<String>>,
    reading: index::Reading,
)
    requires
        index::lenient(reading),
        written.len() == held.len(),
        forall|i: int|
            0 <= i < held.len() ==> match #[trigger] written[i] {
                Some(line) => !line@.contains('\n') && reading(line@) == Some(held[i]),
                None => true,
            },
    ensures
        index::entries_of(index::file_of(written_lines(written)), reading) == written_entries(
            held,
            written,
        ),
{
    lemma_written_lines(held, written, reading);
    index::law_lines_are_read(written_lines(written), reading);
}

proof fn lemma_written_lines(
    entries: Seq<IndexEntry>,
    written: Seq<Option<String>>,
    reading: index::Reading,
)
    requires
        written.len() == entries.len(),
        forall|i: int|
            0 <= i < entries.len() ==> match #[trigger] written[i] {
                Some(line) => !line@.contains('\n') && reading(line@) == Some(entries[i]),
                None => true,
            },
    ensures
        index::present(written_lines(written).map_values(reading)) == written_entries(
            entries,
            written,
        ),
        forall|i: int|
            0 <= i < written_lines(written).len() ==> !(#[trigger] written_lines(
                written,
            )[i]).contains('\n'),
    decreases entries.len(),
{
    if entries.len() > 0 {
        let n = entries.len() - 1;
        let before = written.drop_last();
        assert forall|i: int| 0 <= i < n implies match #[trigger] before[i] {
            Some(line) => !line@.contains('\n') && reading(line@) == Some(
                entries.drop_last()[i],
            ),
            None => true,
        } by {
            assert(before[i] == written[i]);
        }
        lemma_written_lines(entries.drop_last(), before, reading);
        if let Some(line) = written[n] {
            let found = written_lines(before).map_values(reading);
            assert(written_lines(written).map_values(reading) =~= found.push(Some(entries[n])));
            assert(found.push(Some(entries[n])).drop_last() =~= found);
        }
    } else {
        assert(written_lines(written).map_values(reading) =~= Seq::empty());
    }
}

/// Whether `reply` answers a lookup that gave `answer`.
pub open spec fn answers_lookup<W: Fn(&IndexEntry) -> Option<String>>(
    reply: Reply,
    answer: Result<Vec<IndexEntry>, RegistryError>,
    write: W,
) -> bool {
    match answer {
        Ok(entries) => if entries@.len() == 0 {
            reply.is_text(404, "Not found"@)
        } else {
            exists|content: Seq<char>| #[trigger]
                is_written(content, entries@, write) && reply.is_json(content)
        },
        Err(e) => reply.tells(502, "Failed to lookup crate: "@, e),
    }
}

/// Answers an index request from what the lookup gave.
pub fn handle_index_lookup<W: Fn(&IndexEntry) -> Option<String>>(
    answer: Result<Vec<IndexEntry>, RegistryError>,
    write: W,
) -> (reply: Reply)
    requires
        forall|e: &IndexEntry| #[trigger] call_requires(write, (e,)),
    ensures
        answers_lookup(reply, answer, write),
{
    match answer {
        Ok(entries) => {
            if entries.is_empty() {
                return Reply::text(404, "Not found");
            }
            let body = serialize_index_entries(entries.as_slice(), write);
            Reply { status: 200, content: Content::Json(body) }
        },
        Err(e) => Reply::failure(502, "Failed to lookup crate: ", &e),
    }
}

/// Answers an index request that came through the proxy.
pub fn internal_handle_index_lookup<W: Fn(&IndexEntry) -> Option<String>>(
    answer: Result<Vec<IndexEntry>, RegistryError>,
    write: W,
) -> (response: InternalResponse)
    requires
        forall|e: &IndexEntry| #[trigger] call_requires(write, (e,)),
    ensures
        exists|reply: Reply| #[trigger]
            answers_lookup(reply, answer, write) && response@ == reply.as_response(),
{
    let reply = handle_index_lookup(answer, write);
    assert(answers_lookup(reply, answer, write));
    reply.into_internal()
}

/// Whether `reply` refuses a publish request for this reason.
pub open spec fn refuses(reply: Reply, error: ParseError) -> bool {
    exists|own: Seq<char>| #[trigger] error.says(own) && reply.is_text(400, own)
}

/// What reading a publish request may come to, where `decode` makes metadata out of JSON.
pub open spec fn may_read_request<
    D: FnOnce(&[u8]) -> Result<PublishMetadata, serde_json::Error>,
>(body: Seq<u8>, decode: D, request: Result<(PublishMetadata, &[u8]), Reply>) -> bool {
    exists|parsed: Result<(PublishMetadata, &[u8]), ParseError>|
        #[trigger] publish_body::may_parse(body, decode, parsed) && (match parsed {
            Ok(r) => request == Ok::<(PublishMetadata, &[u8]), Reply>(r),
            Err(e) => request matches Err(reply) && refuses(reply, e),
        })
}

/// Reads a publish request, or refuses it.
pub fn read_publish_request<
    'a,
    D: FnOnce(&[u8]) -> Result<PublishMetadata, serde_json::Error>,
>(body: &'a [u8], decode: D) -> (request: Result<(PublishMetadata, &'a [u8]), Reply>)
    requires
        forall|json: &[u8]| #[trigger] call_requires(decode, (json,)),
    ensures
        may_read_request(body@, decode, request),
{
    let parsed = parse_publish_body(body, decode);
    assert(publish_body::may_parse(body@, decode, parsed));
    match parsed {
        Ok(r) => Ok(r),
        Err(e) => {
            let own = e.to_string();
            assert(e.says(own@));
            Err(Reply { status: 400, content: Content::Text(own) })
        },
    }
}

/// The answer to a crate that was accepted holds no warnings.
pub open spec fn has_no_warnings(response: PublishResponse) -> bool {
    &&& response.warnings.invalid_categories@.len() == 0
    &&& response.warnings.invalid_badges@.len() == 0
    &&& response.warnings.other@.len() == 0
}

/// Whether `reply` answers a publish request that came to `answer`.
pub open spec fn answers_publish<E: FnOnce(PublishResponse) -> String>(
    reply: Reply,
    answer: Result<String, RegistryError>,
    encode: E,
) -> bool {
    match answer {
        Ok(_) => exists|response: PublishResponse, json: String|
            has_no_warnings(response) && #[trigger] call_ensures(encode, (response,), json)
                && reply.is_json(json@),
        Err(RegistryError::ValidationFailed(errors)) => reply.is_text(
            400,
            "Validation failed: "@ + text::join(text::views(errors@), "; "@),
        ),
        Err(e) => reply.tells(500, "Failed to publish: "@, e),
    }
}

/// Answers a publish request from what the registry said.
pub fn handle_api_publish<E: FnOnce(PublishResponse) -> String>(
    answer: Result<String, RegistryError>,
    encode: E,
) -> (reply: Reply)
    requires
        forall|r: PublishResponse| #[trigger] call_requires(encode, (r,)),
    ensures
        answers_publish(reply, answer, encode),
{
    match answer {
        Ok(_) => {
            let response = PublishResponse {
                warnings: PublishWarnings {
                    invalid_categories: Vec::new(),
                    invalid_badges: Vec::new(),
                    other: Vec::new(),
                },
            };
            let json = encode(response);
            Reply { status: 200, content: Content::Json(json) }
        },
        Err(RegistryError::ValidationFailed(errors)) => {
            let all = join_strings(&errors, "; ");
            let message = String::from_str("Validation failed: ").concat(all.as_str());
            Reply { status: 400, content: Content::Text(message) }
        },
        Err(e) => Reply::failure(500, "Failed to publish: ", &e),
    }
}

/// Answers a publish request that came through the proxy.
pub fn internal_handle_publish<E: FnOnce(PublishResponse) -> String>(
    answer: Result<String, RegistryError>,
    encode: E,
) -> (response: InternalResponse)
    requires
        forall|r: PublishResponse| #[trigger] call_requires(encode, (r,)),
    ensures
        exists|reply: Reply| #[trigger]
            answers_publish(reply, answer, encode) && response@ == reply.as_response(),
{
    let reply = handle_api_publish(answer, encode);
    assert(answers_publish(reply, answer, encode));
    reply.into_internal()
}

/// Whether `decode` makes the same of the same bytes, and fails with errors that always
/// say the same.
pub open spec fn decodes_alike<D: FnOnce(&[u8]) -> Result<PublishMetadata, serde_json::Error>>(
    decode: D,
) -> bool {
    &&& forall|a: &[u8], b: &[u8], x, y|
        a@ == b@ && #[trigger] call_ensures(decode, (a,), x) && #[trigger] call_ensures(
            decode,
            (b,),
            y,
        ) ==> x == y
    &&& forall|a: &[u8], e: serde_json::Error| #[trigger]
        call_ensures(decode, (a,), Err::<PublishMetadata, serde_json::Error>(e))
            ==> ParseError::InvalidJson(e).is_steady()
}

/// A publish request is read alike on both ways: both pass the same metadata and crate
/// file on to the registry, or both refuse it with the same answer.
pub proof fn law_requests_are_read_alike<
    D: FnOnce(&[u8]) -> Result<PublishMetadata, serde_json::Error>,
>(
    body: Seq<u8>,
    decode: D,
    a: Result<(PublishMetadata, &[u8]), Reply>,
    b: Result<(PublishMetadata, &[u8]), Reply>,
)
    requires
        decodes_alike(decode),
        may_read_request(body, decode, a),
        may_read_request(body, decode, b),
    ensures
        match (a, b) {
            (Ok((m, data)), Ok((n, more))) => m == n && data@ == more@,
            (Err(x), Err(y)) => x.as_response() == y.as_response(),
            _ => false,
        },
{
}

/// Whether `encode` writes every answer without warnings alike.
pub open spec fn encodes_alike<E: FnOnce(PublishResponse) -> String>(encode: E) -> bool {
    forall|r: PublishResponse, s: PublishResponse, x: String, y: String|
        has_no_warnings(r) && has_no_warnings(s) && #[trigger] call_ensures(encode, (r,), x)
            && #[trigger] call_ensures(encode, (s,), y) ==> x@ == y@
}

/// A publish request is answered alike on both ways: what the registry said comes to the
/// same status and the same body, whether the request came through the web server or
/// through the proxy.
pub proof fn law_publish_requests_are_answered_alike<E: FnOnce(PublishResponse) -> String>(
    answer: Result<String, RegistryError>,
    encode: E,
    reply: Reply,
    response: ResponseView,
)
    requires
        encodes_alike(encode),
        answer matches Err(e) ==> e.is_steady(),
        answers_publish(reply, answer, encode),
        exists|other: Reply| #[trigger]
            answers_publish(other, answer, encode) && response == other.as_response(),
    ensures
        response == reply.as_response(),
{
}

/// The values of the Authorization headers of a request that came through the proxy.
pub open spec fn tokens(headers: Seq<(String, String)>) -> Seq<Option<Seq<char>>>
    decreases headers.len(),
{
    if headers.len() == 0 {
        Seq::empty()
    } else {
        let rest = tokens(headers.skip(1));
        if text::ascii_lower(headers[0].0@) == text::ascii_lower("authorization"@) {
            seq![Some(headers[0].1@)] + rest
        } else {
            rest
        }
    }
}

/// The values of the headers of a name, where these are text.
pub open spec fn all_texts(headers: Seq<(String, Option<String>)>, name: Seq<char>) -> Seq<
    Option<Seq<char>>,
>
    decreases headers.len(),
{
    if headers.len() == 0 {
        Seq::empty()
    } else {
        let rest = all_texts(headers.skip(1), name);
        if headers[0].0@ == name {
            seq![text::opt_view(headers[0].1)] + rest
        } else {
            rest
        }
    }
}

/// The token is found alike on both ways, where both have the same Authorization headers
/// in the same order, whatever stands between them.
pub proof fn law_tokens_are_found_alike(
    headers: Seq<(String, String)>,
    texts: Seq<(String, Option<String>)>,
)
    requires
        tokens(headers) == all_texts(texts, "authorization"@),
    ensures
        token_of(headers) == first_text(texts, "authorization"@),
{
    lemma_first_token(headers);
    lemma_first_text(texts, "authorization"@);
}

/// The token of a request is the first of its tokens.
proof fn lemma_first_token(headers: Seq<(String, String)>)
    ensures
        token_of(headers) == if tokens(headers).len() > 0 {
            tokens(headers)[0]
        } else {
            None
        },
    decreases headers.len(),
{
    if headers.len() > 0 {
        lemma_first_token(headers.skip(1));
    }
}

/// The value of the first header of a name is the first of the values.
proof fn lemma_first_text(headers: Seq<(String, Option<String>)>, name: Seq<char>)
    ensures
        first_text(headers, name) == if all_texts(headers, name).len() > 0 {
            all_texts(headers, name)[0]
        } else {
            None
        },
    decreases headers.len(),
{
    if headers.len() > 0 {
        lemma_first_text(headers.skip(1), name);
    }
}

/// Headers whose names are put into lower case have the same Authorization headers.
pub proof fn law_lower_case_names_keep_the_token(
    headers: Seq<(String, String)>,
    texts: Seq<(String, Option<String>)>,
)
    requires
        texts.len() == headers.len(),
        forall|i: int|
            0 <= i < headers.len() ==> (#[trigger] texts[i]).0@ == text::ascii_lower(
                headers[i].0@,
            ) && text::opt_view(texts[i].1) == Some(headers[i].1@),
    ensures
        tokens(headers) == all_texts(texts, "authorization"@),
        token_of(headers) == first_text(texts, "authorization"@),
    decreases headers.len(),
{
    reveal_strlit("authorization");
    assert(text::ascii_lower("authorization"@) =~= "authorization"@);
    if headers.len() > 0 {
        assert(texts[0].0@ == text::ascii_lower(headers[0].0@));
        assert forall|i: int| 0 <= i < headers.skip(1).len() implies (#[trigger] texts.skip(
            1,
        )[i]).0@ == text::ascii_lower(headers.skip(1)[i].0@) && text::opt_view(texts.skip(1)[i].1)
            == Some(headers.skip(1)[i].1@) by {
            assert(texts.skip(1)[i] == texts[i + 1]);
        }
        law_lower_case_names_keep_the_token(headers.skip(1), texts.skip(1));
    }
    law_tokens_are_found_alike(headers, texts);
}

/// Whether `reply` answers a download that gave `answer`.
pub open spec fn answers_download(reply: Reply, answer: Result<Vec<u8>, RegistryError>) -> bool {
    match answer {
        Ok(data) => reply.is_gzip(data@),
        Err(RegistryError::NotFound) => reply.is_text(404, "Crate not found"@),
        Err(e) => reply.tells(502, "Failed to download: "@, e),
    }
}

/// Answers a download request from what the registry said.
pub fn handle_api_download(answer: Result<Vec<u8>, RegistryError>) -> (reply: Reply)
    ensures
        answers_download(reply, answer),
{
    match answer {
        Ok(data) => Reply { status: 200, content: Content::Gzip(data) },
        Err(RegistryError::NotFound) => Reply::text(404, "Crate not found"),
        Err(e) => Reply::failure(502, "Failed to download: ", &e),
    }
}

/// Answers a download request that came through the proxy.
pub fn internal_handle_download(answer: Result<Vec<u8>, RegistryError>) -> (response:
    InternalResponse)
    ensures
        exists|reply: Reply| #[trigger]
            answers_download(reply, answer) && response@ == reply.as_response(),
{
    let reply = handle_api_download(answer);
    assert(answers_download(reply, answer));
    reply.into_internal()
}

/// The token of a request that came through the proxy: the value of the first
/// Authorization header, whatever the case of its name.
pub open spec fn token_of(headers: Seq<(String, String)>) -> Option<Seq<char>>
    decreases headers.len(),
{
    if headers.len() == 0 {
        None
    } else if text::ascii_lower(headers[0].0@) == text::ascii_lower("authorization"@) {
        Some(headers[0].1@)
    } else {
        token_of(headers.skip(1))
    }
}

/// The token of a request that came through the proxy.
pub fn find_token(headers: &[(String, String)]) -> (token: Option<&str>)
    ensures
        text::opt_str(token) == token_of(headers@),
{
    let mut i: usize = 0;
    assert(headers@.skip(0) =~= headers@);
    while i < headers.len()
        invariant
            i <= headers@.len(),
            token_of(headers@) == token_of(headers@.skip(i as int)),
        decreases headers@.len() - i,
    {
        let header = &headers[i];
        if eq_ignore_ascii_case(header.0.as_str(), "authorization") {
            return Some(header.1.as_str());
        }
        assert(headers@.skip(i as int).skip(1) =~= headers@.skip(i + 1));
        i = i + 1;
    }
    None
}

/// The value of the first header of this name, where that value is text. A header is
/// given by its name in lower case and by its value, if that is text.
pub open spec fn first_text(headers: Seq<(String, Option<String>)>, name: Seq<char>) -> Option<
    Seq<char>,
>
    decreases headers.len(),
{
    if headers.len() == 0 {
        None
    } else if headers[0].0@ == name {
        text::opt_view(headers[0].1)
    } else {
        first_text(headers.skip(1), name)
    }
}

/// The value of the first header of this name, where that value is text.
pub fn find_text<'a>(headers: &'a [(String, Option<String>)], name: &str) -> (value: Option<&'a str>)
    ensures
        text::opt_str(value) == first_text(headers@, name@),
{
    let mut i: usize = 0;
    assert(headers@.skip(0) =~= headers@);
    while i < headers.len()
        invariant
            i <= headers@.len(),
            first_text(headers@, name@) == first_text(headers@.skip(i as int), name@),
        decreases headers@.len() - i,
    {
        let header = &headers[i];
        if same_text(header.0.as_str(), name) {
            return match &header.1 {
                Some(value) => Some(value.as_str()),
                None => None,
            };
        }
        assert(headers@.skip(i as int).skip(1) =~= headers@.skip(i + 1));
        i = i + 1;
    }
    None
}

/// A request to send to the upstream server.
pub struct UpstreamRequest {
    pub method: String,
    pub url: String,
    pub headers: Vec<(String, String)>,
}

/// The methods that are passed on.
pub open spec fn is_passed_on(method: Seq<char>) -> bool {
    method == "GET"@ || method == "PUT"@ || method == "DELETE"@ || method == "POST"@
}

/// A list of one header, or of none.
pub open spec fn at_most_one(name: Seq<char>, value: Option<Seq<char>>) -> Seq<
    (Seq<char>, Seq<char>),
> {
    match value {
        Some(value) => seq![(name, value)],
        None => Seq::empty(),
    }
}

/// The headers that go along with a request: who asks, and what they accept.
pub open spec fn passed_headers(headers: Seq<(String, Option<String>)>) -> Seq<
    (Seq<char>, Seq<char>),
> {
    at_most_one("authorization"@, first_text(headers, "authorization"@)) + at_most_one(
        "accept"@,
        first_text(headers, "accept"@),
    )
}

/// Adds a header to a list, if it has a value.
fn push_header(headers: &mut Vec<(String, String)>, name: &str, value: Option<&str>)
    ensures
        header_views(final(headers)@) == header_views(old(headers)@) + at_most_one(
            name@,
            text::opt_str(value),
        ),
{
    let ghost before = headers@;
    if let Some(value) = value {
        headers.push((String::from_str(name), String::from_str(value)));
    }
    assert(header_views(headers@) =~= header_views(before) + at_most_one(
        name@,
        text::opt_str(value),
    ));
}

/// Passes a request on to the upstream server, or refuses its method.
pub fn proxy_api_request(
    method: &str,
    url: &str,
    headers: &[(String, Option<String>)],
) -> (request: Result<UpstreamRequest, Reply>)
    ensures
        match request {
            Ok(r) => {
                &&& is_passed_on(method@)
                &&& r.method@ == method@
                &&& r.url@ == url@
                &&& header_views(r.headers@) == passed_headers(headers@)
            },
            Err(reply) => !is_passed_on(method@) && reply.is_text(405, "Method not allowed"@),
        },
{
    if !same_text(method, "GET") && !same_text(method, "PUT") && !same_text(method, "DELETE")
        && !same_text(method, "POST") {
        return Err(Reply::text(405, "Method not allowed"));
    }
    let mut kept: Vec<(String, String)> = Vec::new();
    push_header(&mut kept, "authorization", find_text(headers, "authorization"));
    push_header(&mut kept, "accept", find_text(headers, "accept"));
    assert(header_views(kept@) =~= passed_headers(headers@));
    Ok(UpstreamRequest {
        method: String::from_str(method),
        url: String::from_str(url),
        headers: kept,
    })
}

/// Where a search is sent.
pub open spec fn search_url(upstream_api: Seq<char>, query: Seq<char>) -> Seq<char> {
    upstream_api + "/api/v1/crates"@ + query
}

/// What follows the path in a search, given what stands behind the question mark.
pub open spec fn query_part(query: Option<Seq<char>>) -> Seq<char> {
    match query {
        Some(q) => "?"@ + q,
        None => Seq::empty(),
    }
}

/// Passes a search on to the upstream server.
pub fn handle_api_search(
    upstream_api: &str,
    query: Option<&str>,
    headers: &[(String, Option<String>)],
) -> (request: Result<UpstreamRequest, Reply>)
    ensures
        request matches Ok(r) && {
            &&& r.method@ == "GET"@
            &&& r.url@ == search_url(upstream_api@, query_part(text::opt_str(query)))
            &&& query is Some ==> r.url@ == upstream_api@ + "/api/v1/crates"@ + "?"@ + query->0@
            &&& query is None ==> r.url@ == upstream_api@ + "/api/v1/crates"@
            &&& header_views(r.headers@) == passed_headers(headers@)
        },
{
    let path = String::from_str(upstream_api).concat("/api/v1/crates");
    let url = match query {
        Some(q) => path.concat("?").concat(q),
        None => path,
    };
    assert(url@ =~= search_url(upstream_api@, query_part(text::opt_str(query))));
    proxy_api_request("GET", url.as_str(), headers)
}

/// What came of a request to the upstream server. The names of headers are in lower case.
pub enum UpstreamAnswer<V> {
    /// The server could not be reached.
    NotReached { why: String },
    /// The server answered, and the body could not be read.
    NotRead { why: String },
    /// The whole answer.
    Read { status: u16, headers: Vec<(String, V)>, body: Vec<u8> },
}

/// An answer to a request that was passed on.
pub enum ProxyReply {
    /// What the upstream server said.
    Upstream { status: u16, headers: Vec<(String, Vec<u8>)>, body: Vec<u8> },
    /// What went wrong on the way.
    Own(Reply),
}

/// Whether a header of an answer is for the client, and not for the connection to the
/// upstream server alone.
pub open spec fn is_for_client(name: Seq<char>) -> bool {
    name != "transfer-encoding"@ && name != "connection"@
}

/// The headers of an answer that are for the client.
pub open spec fn client_headers(headers: Seq<(String, Vec<u8>)>) -> Seq<(String, Vec<u8>)> {
    headers.filter(|h: (String, Vec<u8>)| is_for_client(h.0@))
}

/// A status code as it goes to the client: those of HTTP have three digits.
pub open spec fn client_status(status: u16) -> u16 {
    if 100 <= status <= 999 {
        status
    } else {
        500
    }
}

/// Whether a header of an answer is for the client.
fn for_client(name: &str) -> (yes: bool)
    ensures
        yes == is_for_client(name@),
{
    !same_text(name, "transfer-encoding") && !same_text(name, "connection")
}

/// The headers of an answer that are for the client.
fn keep_client_headers(headers: Vec<(String, Vec<u8>)>) -> (kept: Vec<(String, Vec<u8>)>)
    ensures
        kept@ == client_headers(headers@),
{
    let ghost all = headers@;
    let mut kept: Vec<(String, Vec<u8>)> = Vec::new();
    proof {
        reveal(Seq::filter);
        assert(all.take(0) =~= Seq::empty());
    }
    for header in it: headers
        invariant
            it.seq() == all,
            kept@ == client_headers(all.take(it.index())),
    {
        proof {
            reveal(Seq::filter);
            assert(all.take(it.index() + 1).drop_last() =~= all.take(it.index()));
        }
        if for_client(header.0.as_str()) {
            kept.push(header);
        }
    }
    assert(all.take(all.len() as int) =~= all);
    kept
}

/// Answers a request that was passed on from what the upstream server said.
pub fn proxy_api_response(answer: UpstreamAnswer<Vec<u8>>) -> (reply: ProxyReply)
    ensures
        match answer {
            UpstreamAnswer::NotReached { why } => reply matches ProxyReply::Own(r) && r.is_text(
                502,
                "Failed to connect to upstream: "@ + why@,
            ),
            UpstreamAnswer::NotRead { why } => reply matches ProxyReply::Own(r) && r.is_text(
                502,
                "Failed to read upstream response: "@ + why@,
            ),
            UpstreamAnswer::Read { status, headers, body } => {
                &&& reply matches ProxyReply::Upstream { status: s, headers: h, body: b }
                &&& s == client_status(status)
                &&& h@ == client_headers(headers@)
                &&& b == body
            },
        },
{
    match answer {
        UpstreamAnswer::NotReached { why } => {
            let message = String::from_str("Failed to connect to upstream: ").concat(why.as_str());
            ProxyReply::Own(Reply { status: 502, content: Content::Text(message) })
        },
        UpstreamAnswer::NotRead { why } => {
            let message = String::from_str("Failed to read upstream response: ").concat(
                why.as_str(),
            );
            ProxyReply::Own(Reply { status: 502, content: Content::Text(message) })
        },
        UpstreamAnswer::Read { status, headers, body } => {
            let status: u16 = if 100 <= status && status <= 999 {
                status
            } else {
                500
            };
            ProxyReply::Upstream { status, headers: keep_client_headers(headers), body }
        },
    }
}

/// Under what name a header of a request that came through the proxy goes along with a
/// search, given the header's name in lower case.
pub open spec fn search_header(lower: Seq<char>) -> Option<Seq<char>> {
    if lower == "authorization"@ {
        Some("Authorization"@)
    } else if lower == "accept"@ {
        Some("Accept"@)
    } else {
        None
    }
}

/// Under what name a header goes along with a search, given its name in lower case.
pub fn search_header_name(lower: &str) -> (name: Option<&'static str>)
    ensures
        text::opt_str(name) == search_header(lower@),
{
    if same_text(lower, "authorization") {
        Some("Authorization")
    } else if same_text(lower, "accept") {
        Some("Accept")
    } else {
        None
    }
}

/// The headers that go along with a search, where `lower` gives the lower case of a name.
pub open spec fn search_headers(
    headers: Seq<(String, String)>,
    lower: spec_fn(Seq<char>) -> Seq<char>,
) -> Seq<(Seq<char>, Seq<char>)>
    decreases headers.len(),
{
    if headers.len() == 0 {
        Seq::empty()
    } else {
        let rest = search_headers(headers.drop_last(), lower);
        match search_header(lower(headers.last().0@)) {
            Some(name) => rest.push((name, headers.last().1@)),
            None => rest,
        }
    }
}

/// Whether the names of all headers are ASCII text, as HTTP asks.
pub open spec fn has_ascii_names(headers: Seq<(String, String)>) -> bool {
    forall|i: int| 0 <= i < headers.len() ==> is_ascii_chars(#[trigger] headers[i].0@)
}

/// Passes a search that came through the proxy on to the upstream server.
pub fn internal_search_request(
    upstream_api: &str,
    query: &str,
    headers: &[(String, String)],
) -> (request: UpstreamRequest)
    ensures
        request.method@ == "GET"@,
        request.url@ == search_url(upstream_api@, query@),
        request.url@ == upstream_api@ + "/api/v1/crates"@ + query@,
        header_views(request.headers@) == search_headers(
            headers@,
            |name: Seq<char>| outside::lowercase_of(name),
        ),
        has_ascii_names(headers@) ==> header_views(request.headers@) == search_headers(
            headers@,
            |name: Seq<char>| text::ascii_lower(name),
        ),
{
    let ghost named = |name: Seq<char>| outside::lowercase_of(name);
    let ghost ascii = |name: Seq<char>| text::ascii_lower(name);
    let url = String::from_str(upstream_api).concat("/api/v1/crates").concat(query);
    let mut kept: Vec<(String, String)> = Vec::new();
    let mut i: usize = 0;
    assert(header_views(kept@) =~= Seq::empty());
    while i < headers.len()
        invariant
            i <= headers@.len(),
            named == (|name: Seq<char>| outside::lowercase_of(name)),
            ascii == (|name: Seq<char>| text::ascii_lower(name)),
            header_views(kept@) == search_headers(headers@.take(i as int), named),
            has_ascii_names(headers@) ==> header_views(kept@) == search_headers(
                headers@.take(i as int),
                ascii,
            ),
        decreases headers@.len() - i,
    {
        let header = &headers[i];
        let lower = header.0.as_str().to_lowercase();
        let ghost before = header_views(kept@);
        proof {
            let next = headers@.take(i + 1);
            assert(next.drop_last() =~= headers@.take(i as int));
            assert(next.last() == headers@[i as int]);
            assert(has_ascii_names(headers@) ==> is_ascii_chars(headers@[i as int].0@));
        }
        if let Some(name) = search_header_name(lower.as_str()) {
            kept.push((String::from_str(name), header.1.clone()));
            assert(header_views(kept@) =~= before.push((name@, header.1@)));
        }
        i = i + 1;
    }
    assert(headers@.take(headers@.len() as int) =~= headers@);
    UpstreamRequest { method: String::from_str("GET"), url, headers: kept }
}

/// The headers of an answer to a search that are for the client, and are text.
pub open spec fn search_answer_headers(headers: Seq<(String, Option<String>)>) -> Seq<
    (Seq<char>, Seq<char>),
>
    decreases headers.len(),
{
    if headers.len() == 0 {
        Seq::empty()
    } else {
        let rest = search_answer_headers(headers.drop_last());
        match headers.last().1 {
            Some(value) if is_for_client(headers.last().0@) => rest.push(
                (headers.last().0@, value@),
            ),
            _ => rest,
        }
    }
}

/// Answers a search that came through the proxy from what the upstream server said.
pub fn internal_handle_search(answer: UpstreamAnswer<Option<String>>) -> (response:
    InternalResponse)
    ensures
        response@ == match answer {
            UpstreamAnswer::NotReached { why } => error_response(
                502,
                "Failed to connect to upstream: "@ + why@,
            ),
            UpstreamAnswer::NotRead { why } => error_response(
                502,
                "Failed to read upstream response: "@ + why@,
            ),
            UpstreamAnswer::Read { status, headers, body } => (ResponseView {
                status,
                headers: search_answer_headers(headers@),
                body: body@,
            }),
        },
{
    match answer {
        UpstreamAnswer::NotReached { why } => {
            let message = String::from_str("Failed to connect to upstream: ").concat(why.as_str());
            InternalResponse::error(502, message.as_str())
        },
        UpstreamAnswer::NotRead { why } => {
            let message = String::from_str("Failed to read upstream response: ").concat(
                why.as_str(),
            );
            InternalResponse::error(502, message.as_str())
        },
        UpstreamAnswer::Read { status, headers, body } => {
            let ghost all = headers@;
            let mut kept: Vec<(String, String)> = Vec::new();
            assert(header_views(kept@) =~= search_answer_headers(all.take(0)));
            for header in it: headers
                invariant
                    it.seq() == all,
                    header_views(kept@) == search_answer_headers(all.take(it.index())),
            {
                let ghost before = header_views(kept@);
                proof {
                    assert(all.take(it.index() + 1).drop_last() =~= all.take(it.index()));
                }
                let (name, value) = header;
                if for_client(name.as_str()) {
                    if let Some(v) = value {
                        kept.push((name, v));
                        assert(header_views(kept@) =~= before.push((name@, v@)));
                    }
                }
            }
            assert(all.take(all.len() as int) =~= all);
            InternalResponse { status, headers: kept, body }
        },
    }
}

} // verus!
