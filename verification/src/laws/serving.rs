//! Serving: what requests ask for, what they are answered, what is passed on, and how the
//! server is started.

use vstd::prelude::*;
use vstd::utf8::*;

use crate::cli;
use crate::cli::{Args, Certificate};
use crate::endpoints;
use crate::endpoints::{Content, InternalResponse, Reply};
use crate::publish_body;
use crate::publish_body::ParseError;
use crate::registry::index;
use crate::registry::index::Writing;
use crate::registry::walk;
use crate::registry::RegistryError;
use crate::routing;
use crate::routing::{Route, RouteView};
use crate::text;
use crate::tls;
use crate::tls::PrivateKey;
use crate::types::{IndexEntry, PublishMetadata, PublishResponse, RegistryConfig};

verus! {

/// Responses are seen as they are: status, every header in order, and the body.
pub proof fn law_responses_are_seen_in_full(r: InternalResponse, headers: Seq<(String, String)>)
    ensures
        r@.status == r.status,
        r@.body == r.body@,
        r@.headers == endpoints::header_views(r.headers@),
        endpoints::header_views(headers).len() == headers.len(),
        forall|i: int|
            0 <= i < headers.len() ==> #[trigger] endpoints::header_views(headers)[i] == (
                headers[i].0@,
                headers[i].1@,
            ),
{
}

/// Whether a response has this status, this one header and this body.
pub open spec fn is_plain(
    r: endpoints::ResponseView,
    status: u16,
    content_type: Seq<char>,
    body: Seq<u8>,
) -> bool {
    &&& r.status == status
    &&& r.headers.len() == 1
    &&& r.headers[0].0 == "content-type"@
    &&& r.headers[0].1 == content_type
    &&& r.body == body
}

/// What responses are made of, by what they hold.
pub proof fn law_responses_are_made_so(
    status: u16,
    content_type: Seq<char>,
    body: Seq<u8>,
    s: Seq<char>,
)
    ensures
        is_plain(endpoints::plain_response(status, content_type, body), status, content_type, body),
        is_plain(endpoints::json_response(s), 200, "application/json"@, encode_utf8(s)),
        is_plain(endpoints::error_response(status, s), status, "text/plain"@, encode_utf8(s)),
{
}

/// What answers of the web server are, and what they are when they go through the proxy.
pub proof fn law_replies_are_made_so(
    reply: Reply,
    status: u16,
    s: Seq<char>,
    data: Seq<u8>,
    e: RegistryError,
)
    ensures
        reply.is_json(s) <==> reply.status == 200 && reply.content is Json
            && reply.content->Json_0@ == s,
        reply.is_gzip(data) <==> reply.status == 200 && reply.content is Gzip
            && reply.content->Gzip_0@ == data,
        reply.is_text(status, s) <==> reply.status == status && reply.content is Text
            && reply.content->Text_0@ == s,
        reply.is_json(s) ==> is_plain(
            reply.as_response(),
            200,
            "application/json"@,
            encode_utf8(s),
        ),
        reply.is_gzip(data) ==> is_plain(reply.as_response(), 200, "application/gzip"@, data),
        reply.is_text(status, s) ==> is_plain(
            reply.as_response(),
            status,
            "text/plain"@,
            encode_utf8(s),
        ),
        reply.tells(status, s, e) ==> exists|own: Seq<char>| #[trigger]
            e.says(own) && is_plain(
                reply.as_response(),
                status,
                "text/plain"@,
                encode_utf8(s + own),
            ),
{
    if reply.tells(status, s, e) {
        let own = choose|own: Seq<char>| #[trigger] e.says(own) && reply.is_text(status, s + own);
        assert(e.says(own));
    }
}

/// The server tells where crates are downloaded from and where its API is: under its own
/// address.
pub proof fn law_config_tells_the_address(config: RegistryConfig, base: Seq<char>)
    ensures
        endpoints::is_config(config, base) <==> config.dl@ == base + "/api/v1/crates"@
            && config.api@ == base && config.auth_required is None,
{
}

/// What a lookup is answered: with the entries, one line for each, where there are some; as
/// not found where there are none; and with what went wrong where it failed.
pub proof fn law_lookups_are_answered_so<W: Fn(&IndexEntry) -> Option<String>>(
    reply: Reply,
    answer: Result<Vec<IndexEntry>, RegistryError>,
    write: W,
    writing: Writing,
)
    requires
        endpoints::answers_lookup(reply, answer, write),
        forall|e: &IndexEntry, line: Option<String>| #[trigger]
            call_ensures(write, (e,), line) ==> line is Some && line->0@ == writing(*e),
    ensures
        match answer {
            Ok(entries) => if entries@.len() == 0 {
                is_plain(reply.as_response(), 404, "text/plain"@, encode_utf8("Not found"@))
            } else {
                is_plain(
                    reply.as_response(),
                    200,
                    "application/json"@,
                    encode_utf8(
                        text::join(
                            Seq::new(entries@.len(), |i: int| writing(entries@[i])),
                            seq!['\n'],
                        ) + seq!['\n'],
                    ),
                )
            },
            Err(RegistryError::Network(m)) => is_plain(
                reply.as_response(),
                502,
                "text/plain"@,
                encode_utf8("Failed to lookup crate: "@ + ("network error: "@ + m@)),
            ),
            Err(e) => exists|own: Seq<char>| #[trigger]
                e.says(own) && is_plain(
                    reply.as_response(),
                    502,
                    "text/plain"@,
                    encode_utf8("Failed to lookup crate: "@ + own),
                ),
        },
{
    assert(endpoints::writes_as(write, writing));
    match answer {
        Ok(entries) => {
            if entries@.len() > 0 {
                assert(entries@.map_values(writing) =~= Seq::new(
                    entries@.len(),
                    |i: int| writing(entries@[i]),
                ));
            }
        },
        Err(e) => {
            law_replies_are_made_so(reply, 502, "Failed to lookup crate: "@, Seq::empty(), e);
        },
    }
}

/// What a publish request is answered: an empty list of warnings where it was carried out;
/// the complaints where the metadata did not pass; and what went wrong otherwise.
pub proof fn law_publish_requests_are_answered_so<E: FnOnce(PublishResponse) -> String>(
    reply: Reply,
    answer: Result<String, RegistryError>,
    encode: E,
)
    requires
        endpoints::answers_publish(reply, answer, encode),
    ensures
        match answer {
            Ok(_) => exists|response: PublishResponse, json: String| #[trigger]
                call_ensures(encode, (response,), json)
                    && response.warnings.invalid_categories@.len() == 0
                    && response.warnings.invalid_badges@.len() == 0
                    && response.warnings.other@.len() == 0 && is_plain(
                    reply.as_response(),
                    200,
                    "application/json"@,
                    encode_utf8(json@),
                ),
            Err(RegistryError::ValidationFailed(errors)) => is_plain(
                reply.as_response(),
                400,
                "text/plain"@,
                encode_utf8(
                    "Validation failed: "@ + text::join(
                        Seq::new(errors@.len(), |i: int| errors@[i]@),
                        "; "@,
                    ),
                ),
            ),
            Err(e) => exists|own: Seq<char>| #[trigger]
                e.says(own) && is_plain(
                    reply.as_response(),
                    500,
                    "text/plain"@,
                    encode_utf8("Failed to publish: "@ + own),
                ),
        },
{
    match answer {
        Ok(_) => {},
        Err(RegistryError::ValidationFailed(errors)) => {
            assert(text::views(errors@) =~= Seq::new(errors@.len(), |i: int| errors@[i]@));
        },
        Err(e) => {
            law_replies_are_made_so(reply, 500, "Failed to publish: "@, Seq::empty(), e);
        },
    }
}

/// What a download is answered: with the bytes of the crate file, as not found, or with what
/// went wrong.
pub proof fn law_downloads_are_answered_so(reply: Reply, answer: Result<Vec<u8>, RegistryError>)
    requires
        endpoints::answers_download(reply, answer),
    ensures
        match answer {
            Ok(data) => is_plain(reply.as_response(), 200, "application/gzip"@, data@),
            Err(RegistryError::NotFound) => is_plain(
                reply.as_response(),
                404,
                "text/plain"@,
                encode_utf8("Crate not found"@),
            ),
            Err(e) => exists|own: Seq<char>| #[trigger]
                e.says(own) && is_plain(
                    reply.as_response(),
                    502,
                    "text/plain"@,
                    encode_utf8("Failed to download: "@ + own),
                ),
        },
{
    if let Err(e) = answer {
        if !(e is NotFound) {
            law_replies_are_made_so(reply, 502, "Failed to download: "@, Seq::empty(), e);
        }
    }
}

/// A publish request that cannot be parsed is refused with what the error says; one that
/// can goes on as it was parsed.
pub proof fn law_unreadable_requests_are_refused<
    D: FnOnce(&[u8]) -> Result<PublishMetadata, serde_json::Error>,
>(body: Seq<u8>, decode: D, request: Result<(PublishMetadata, &[u8]), Reply>)
    requires
        endpoints::may_read_request(body, decode, request),
    ensures
        body.len() < 8 ==> (request matches Err(reply) && is_plain(
            reply.as_response(),
            400,
            "text/plain"@,
            encode_utf8("request body too short"@),
        )),
        match request {
            Ok(r) => publish_body::may_parse(
                body,
                decode,
                Ok::<(PublishMetadata, &[u8]), ParseError>(r),
            ),
            Err(reply) => exists|e: ParseError, own: Seq<char>| #[trigger]
                e.says(own) && publish_body::may_parse(
                    body,
                    decode,
                    Err::<(PublishMetadata, &[u8]), ParseError>(e),
                ) && is_plain(reply.as_response(), 400, "text/plain"@, encode_utf8(own)),
        },
{
    let parsed = choose|parsed: Result<(PublishMetadata, &[u8]), ParseError>|
        #[trigger] publish_body::may_parse(body, decode, parsed) && (match parsed {
            Ok(r) => request == Ok::<(PublishMetadata, &[u8]), Reply>(r),
            Err(e) => request matches Err(reply) && endpoints::refuses(reply, e),
        });
    assert(publish_body::may_parse(body, decode, parsed));
    if let Err(e) = parsed {
        let reply = request->Err_0;
        let own = choose|own: Seq<char>| #[trigger] e.says(own) && reply.is_text(400, own);
        assert(e.says(own));
    }
}

/// The token is the value of the first header that is called `authorization`, whatever the
/// case of its letters.
pub proof fn law_tokens_come_from_the_first_such_header(
    header: (String, String),
    rest: Seq<(String, String)>,
)
    ensures
        endpoints::token_of(Seq::empty()) is None,
        text::ascii_lower(header.0@) == "authorization"@ ==> endpoints::token_of(
            seq![header] + rest,
        ) == Some(header.1@),
        text::ascii_lower(header.0@) != "authorization"@ ==> endpoints::token_of(
            seq![header] + rest,
        ) == endpoints::token_of(rest),
{
    reveal_strlit("authorization");
    assert(text::ascii_lower("authorization"@) =~= "authorization"@);
    assert((seq![header] + rest).skip(1) =~= rest);
}

/// The value of a header is that of the first of its name, and nothing where that is no
/// text.
pub proof fn law_values_come_from_the_first_such_header(
    header: (String, Option<String>),
    rest: Seq<(String, Option<String>)>,
    name: Seq<char>,
)
    ensures
        endpoints::first_text(Seq::empty(), name) is None,
        header.0@ == name && header.1 is None ==> endpoints::first_text(
            seq![header] + rest,
            name,
        ) is None,
        header.0@ == name && header.1 is Some ==> endpoints::first_text(seq![header] + rest, name)
            == Some(header.1->0@),
        header.0@ != name ==> endpoints::first_text(seq![header] + rest, name)
            == endpoints::first_text(rest, name),
{
    assert((seq![header] + rest).skip(1) =~= rest);
}

/// Four methods are passed on, and of the headers who asks and what they accept, where
/// these are text.
pub proof fn law_requests_are_passed_on_so(
    method: Seq<char>,
    headers: Seq<(String, Option<String>)>,
)
    ensures
        endpoints::is_passed_on(method) <==> seq!["GET"@, "PUT"@, "DELETE"@, "POST"@].contains(
            method,
        ),
        ({
            let who = endpoints::first_text(headers, "authorization"@);
            let what = endpoints::first_text(headers, "accept"@);
            let passed = endpoints::passed_headers(headers);
            &&& who is None && what is None ==> passed.len() == 0
            &&& who is Some && what is None ==> passed == seq![("authorization"@, who->0)]
            &&& who is None && what is Some ==> passed == seq![("accept"@, what->0)]
            &&& who is Some && what is Some ==> passed == seq![
                ("authorization"@, who->0),
                ("accept"@, what->0),
            ]
        }),
{
    let four = seq!["GET"@, "PUT"@, "DELETE"@, "POST"@];
    assert(four[0] == "GET"@ && four[1] == "PUT"@ && four[2] == "DELETE"@ && four[3] == "POST"@);
    let who = endpoints::first_text(headers, "authorization"@);
    let what = endpoints::first_text(headers, "accept"@);
    let passed = endpoints::passed_headers(headers);
    if who is Some && what is None {
        assert(passed =~= seq![("authorization"@, who->0)]);
    }
    if who is None && what is Some {
        assert(passed =~= seq![("accept"@, what->0)]);
    }
    if who is Some && what is Some {
        assert(passed =~= seq![("authorization"@, who->0), ("accept"@, what->0)]);
    }
}

/// A search is sent with its whole query: the address upstream, the path, and all that
/// follows it. Both ways of searching send it to the same address.
pub proof fn law_searches_keep_their_whole_query(api: Seq<char>, q: Seq<char>)
    ensures
        endpoints::search_url(api, endpoints::query_part(Some(q))) == api + "/api/v1/crates?"@ + q,
        endpoints::search_url(api, endpoints::query_part(None)) == api + "/api/v1/crates"@,
        endpoints::search_url(api, q) == api + "/api/v1/crates"@ + q,
        endpoints::search_url(api, endpoints::query_part(Some(q))) == endpoints::search_url(
            api,
            seq!['?'] + q,
        ),
{
    reveal_strlit("?");
    reveal_strlit("/api/v1/crates");
    reveal_strlit("/api/v1/crates?");
    assert("/api/v1/crates?"@ =~= "/api/v1/crates"@.push('?'));
    assert("?"@ =~= seq!['?']);
    assert(endpoints::search_url(api, endpoints::query_part(Some(q))) =~= api + "/api/v1/crates?"@
        + q);
    assert(endpoints::search_url(api, endpoints::query_part(None)) =~= api + "/api/v1/crates"@);
}

/// Of the headers of an answer all go to the client, in order, but for the two that are
/// about the connection.
pub proof fn law_answers_keep_their_headers(
    headers: Seq<(String, Vec<u8>)>,
    header: (String, Vec<u8>),
    status: u16,
)
    ensures
        endpoints::client_headers(Seq::empty()) == Seq::<(String, Vec<u8>)>::empty(),
        header.0@ == "transfer-encoding"@ || header.0@ == "connection"@
            ==> endpoints::client_headers(headers.push(header)) == endpoints::client_headers(
            headers,
        ),
        header.0@ != "transfer-encoding"@ && header.0@ != "connection"@
            ==> endpoints::client_headers(headers.push(header)) == endpoints::client_headers(
            headers,
        ).push(header),
        endpoints::client_status(status) as int == if status >= 100 && status < 1000 {
            status as int
        } else {
            500
        },
{
    reveal(Seq::filter);
    assert(headers.push(header).drop_last() =~= headers);
}

/// Of the headers of a search that came through the proxy those go along that are called
/// `authorization` or `accept`, under these names with a capital, all of them and in order.
pub proof fn law_searches_take_two_kinds_of_headers(
    headers: Seq<(String, String)>,
    header: (String, String),
    lower: spec_fn(Seq<char>) -> Seq<char>,
)
    ensures
        endpoints::search_headers(Seq::empty(), lower).len() == 0,
        lower(header.0@) == "authorization"@ ==> endpoints::search_headers(
            headers.push(header),
            lower,
        ) == endpoints::search_headers(headers, lower).push(("Authorization"@, header.1@)),
        lower(header.0@) == "accept"@ ==> endpoints::search_headers(headers.push(header), lower)
            == endpoints::search_headers(headers, lower).push(("Accept"@, header.1@)),
        lower(header.0@) != "authorization"@ && lower(header.0@) != "accept"@
            ==> endpoints::search_headers(headers.push(header), lower) == endpoints::search_headers(
            headers,
            lower,
        ),
{
    assert(headers.push(header).drop_last() =~= headers);
    reveal_strlit("authorization");
    reveal_strlit("accept");
    assert("authorization"@.len() != "accept"@.len());
}

/// Of the headers of an answer to such a search all go to the client that are text, in
/// order, but for the two that are about the connection.
pub proof fn law_search_answers_keep_their_headers(
    headers: Seq<(String, Option<String>)>,
    header: (String, Option<String>),
)
    ensures
        endpoints::search_answer_headers(Seq::empty()).len() == 0,
        header.1 is None || header.0@ == "transfer-encoding"@ || header.0@ == "connection"@
            ==> endpoints::search_answer_headers(headers.push(header))
            == endpoints::search_answer_headers(headers),
        header.1 is Some && header.0@ != "transfer-encoding"@ && header.0@ != "connection"@
            ==> endpoints::search_answer_headers(headers.push(header))
            == endpoints::search_answer_headers(headers).push((header.0@, header.1->0@)),
{
    assert(headers.push(header).drop_last() =~= headers);
}

/// Entries are served one per line: the line of each, in order, with a line feed behind it.
pub proof fn law_entries_are_served_one_per_line<W: Fn(&IndexEntry) -> Option<String>>(
    content: Seq<char>,
    entries: Seq<IndexEntry>,
    write: W,
    writing: Writing,
)
    requires
        endpoints::is_written(content, entries, write),
        forall|e: &IndexEntry, line: Option<String>| #[trigger]
            call_ensures(write, (e,), line) ==> line is Some && line->0@ == writing(*e),
    ensures
        entries.len() == 0 ==> content == seq!['\n'],
        content == text::join(
            Seq::new(entries.len(), |i: int| writing(entries[i])),
            seq!['\n'],
        ) + seq!['\n'],
{
    assert(endpoints::writes_as(write, writing));
    assert(entries.map_values(writing) =~= Seq::new(
        entries.len(),
        |i: int| writing(entries[i]),
    ));
    if entries.len() == 0 {
        assert(content =~= seq!['\n']);
    }
}

/// Every entry is written once, by the function that was passed in, and only those are left
/// out that it gave no line for.
pub proof fn law_every_entry_is_written_once<W: Fn(&IndexEntry) -> Option<String>>(
    content: Seq<char>,
    entries: Seq<IndexEntry>,
    write: W,
)
    requires
        endpoints::is_written(content, entries, write),
    ensures
        exists|written: Seq<Option<String>>|
            {
                &&& written.len() == entries.len()
                &&& forall|i: int|
                    0 <= i < entries.len() ==> call_ensures(
                        write,
                        (#[trigger] &entries[i],),
                        #[trigger] written[i],
                    )
                &&& content == text::join(#[trigger] endpoints::written_lines(written), seq!['\n'])
                    + seq!['\n']
            },
{
    let written = choose|written: Seq<Option<String>>| #[trigger]
        endpoints::may_write_all(write, entries, written) && content == index::file_of(
            endpoints::written_lines(written),
        );
    assert(endpoints::written_lines(written) == endpoints::written_lines(written));
}

/// Whether every character of a text has a code below 128.
pub open spec fn has_low_codes(s: Seq<char>) -> bool {
    forall|k: int| 0 <= k < s.len() ==> (#[trigger] s[k] as u32) < 128
}

proof fn lemma_low_code(c: char)
    requires
        (c as u32) < 128,
    ensures
        '\0' <= c <= '\u{7f}',
{
}

/// Header names are ASCII text where each of their characters has a code below 128.
pub proof fn law_ascii_names_by_code(headers: Seq<(String, String)>)
    ensures
        endpoints::has_ascii_names(headers) <==> forall|i: int|
            0 <= i < headers.len() ==> has_low_codes(#[trigger] headers[i].0@),
{
    if forall|i: int| 0 <= i < headers.len() ==> has_low_codes(#[trigger] headers[i].0@) {
        assert forall|i: int| 0 <= i < headers.len() implies is_ascii_chars(
            #[trigger] headers[i].0@,
        ) by {
            let name = headers[i].0@;
            assert(has_low_codes(name));
            assert forall|k: int| 0 <= k < name.len() implies '\0' <= #[trigger] name[k]
                <= '\u{7f}' by {
                lemma_low_code(name[k]);
            }
        }
    }
    if endpoints::has_ascii_names(headers) {
        assert forall|i: int| 0 <= i < headers.len() implies has_low_codes(
            #[trigger] headers[i].0@,
        ) by {
            assert(is_ascii_chars(headers[i].0@));
        }
    }
}

/// The lines that could be written are all there, in order.
pub proof fn law_written_lines_are_kept_in_order(written: Seq<Option<String>>, line: String)
    ensures
        endpoints::written_lines(Seq::empty()) == Seq::<Seq<char>>::empty(),
        endpoints::written_lines(written.push(None)) == endpoints::written_lines(written),
        endpoints::written_lines(written.push(Some(line))) == endpoints::written_lines(
            written,
        ).push(line@),
{
    assert(written.push(None).drop_last() =~= written);
    assert(written.push(Some(line)).drop_last() =~= written);
}

/// What was asked for is seen as it is.
pub proof fn law_routes_are_seen_in_full(name: String, version: String, r: InternalResponse)
    ensures
        (Route::Config)@ == RouteView::Config,
        (Route::Lookup { crate_name: name })@ == (RouteView::Lookup { crate_name: name@ }),
        (Route::Download { crate_name: name, version })@ == (RouteView::Download {
            crate_name: name@,
            version: version@,
        }),
        (Route::Search { query: name })@ == (RouteView::Search { query: name@ }),
        (Route::Publish)@ == RouteView::Publish,
        (Route::Refused(r))@ == RouteView::Refused(r@),
{
}

proof fn lemma_begins_not(prefix: Seq<char>, s: Seq<char>, i: int)
    requires
        0 <= i < prefix.len(),
        i < s.len(),
        prefix[i] != s[i],
    ensures
        !prefix.is_prefix_of(s),
{
    if prefix.is_prefix_of(s) {
        assert(s.subrange(0, prefix.len() as int)[i] == s[i]);
    }
}

/// Names of one, two and three characters are looked up under directories of their own,
/// whatever follows; a third directory without a slash behind it is refused.
pub proof fn law_short_directories_lead_to_lookups(name: Seq<char>, first: Seq<char>)
    requires
        !first.contains('/'),
    ensures
        routing::route_of("GET"@, "/config.json"@) == RouteView::Config,
        routing::route_of("GET"@, "/1/"@ + name) == (RouteView::Lookup { crate_name: name }),
        routing::route_of("GET"@, "/2/"@ + name) == (RouteView::Lookup { crate_name: name }),
        routing::route_of("GET"@, "/3/"@ + first + "/"@ + name) == (RouteView::Lookup {
            crate_name: name,
        }),
        routing::route_of("GET"@, "/3/"@ + first) matches RouteView::Refused(r) && is_plain(
            r,
            400,
            "text/plain"@,
            encode_utf8("Invalid path"@),
        ),
{
    reveal_strlit("/config.json");
    reveal_strlit("/1/");
    reveal_strlit("/2/");
    reveal_strlit("/3/");
    reveal_strlit("/");
    let one = "/1/"@ + name;
    let two = "/2/"@ + name;
    let three = "/3/"@ + first + "/"@ + name;
    let bad = "/3/"@ + first;
    assert(one[2] == '/' && two[2] == '/' && three[2] == '/' && bad[2] == '/');
    assert("/config.json"@[2] == 'o');
    assert(one.subrange(0, 3) =~= "/1/"@);
    assert(two.subrange(0, 3) =~= "/2/"@);
    assert(three.subrange(0, 3) =~= "/3/"@);
    assert(bad.subrange(0, 3) =~= "/3/"@);
    assert(three[1] == '3' && bad[1] == '3' && "/1/"@[1] == '1' && "/2/"@[1] == '2');
    lemma_begins_not("/1/"@, three, 1);
    lemma_begins_not("/2/"@, three, 1);
    lemma_begins_not("/1/"@, bad, 1);
    lemma_begins_not("/2/"@, bad, 1);
    assert(one.skip(3) =~= name);
    assert(two.skip(3) =~= name);
    assert(three.skip(3) =~= first + seq!['/'] + name);
    assert(bad.skip(3) =~= first);
    text::lemma_split_once_of(first, '/', name);
    text::lemma_split_once_none(first, '/');
}

/// A crate is looked up under two directories of two characters each; its name is all that
/// follows them.
pub proof fn law_two_directories_lead_to_lookups(a: Seq<char>, b: Seq<char>, name: Seq<char>)
    requires
        is_ascii_chars(a) && is_ascii_chars(b),
        a.len() == 2 && b.len() == 2,
        a[1] != '/',
    ensures
        ({
            let path = seq!['/'] + a + seq!['/'] + b + seq!['/'] + name;
            &&& routing::routable("GET"@, path)
            &&& routing::route_of("GET"@, path) == (RouteView::Lookup { crate_name: name })
        }),
{
    let head = seq!['/'] + a + seq!['/'] + b + seq!['/'];
    let none = Seq::<char>::empty();
    let path = head + name;
    reveal_strlit("/config.json");
    reveal_strlit("/1/");
    reveal_strlit("/2/");
    reveal_strlit("/3/");
    assert(path[2] == a[1] && path[3] == '/' && path[6] == '/');
    assert("/config.json"@[3] == 'n');
    assert("/1/"@[2] == '/' && "/2/"@[2] == '/' && "/3/"@[2] == '/');
    lemma_begins_not("/1/"@, path, 2);
    lemma_begins_not("/2/"@, path, 2);
    lemma_begins_not("/3/"@, path, 2);
    assert(is_ascii_chars(head)) by {
        assert forall|i: int| 0 <= i < head.len() implies (#[trigger] head[i] as u32) < 128 by {
            if i == 1 || i == 2 {
                assert(head[i] == a[i - 1]);
            } else if i == 4 || i == 5 {
                assert(head[i] == b[i - 4]);
            }
        }
    }
    is_ascii_chars_encode_utf8(head);
    assert(head.len() == 7);
    crate::laws::texts::law_bytes_of_a_part_hold_the_part(head, name, none);
    crate::laws::texts::lemma_bytes_of_both(head, name);
    assert(head + name + none =~= path);
}

/// Where two directories of two characters each stand before a name, the name is what
/// stands from the eighth byte on, if the path can be cut there; and only there it matters
/// whether it can.
pub proof fn law_names_begin_with_the_eighth_byte(method: Seq<char>, path: Seq<char>)
    ensures
        ({
            let short = "/1/"@.is_prefix_of(path) || "/2/"@.is_prefix_of(path)
                || "/3/"@.is_prefix_of(path);
            let two = path.len() > 6 && path[3] == '/' && path[6] == '/';
            &&& routing::routable(method, path) <==> (method == "GET"@ && !short && two
                ==> text::cuts_at(path, 7))
            &&& !short && two ==> routing::route_of("GET"@, path) == (RouteView::Lookup {
                crate_name: text::byte_slice(path, 7, encode_utf8(path).len() as int),
            })
        }),
{
    reveal_strlit("/config.json");
    assert("/config.json"@[3] == 'n');
}

/// Between the path of the crates and `/download` stand the crate and the version, with one
/// slash between them; anything else is refused.
pub proof fn law_downloads_have_two_parts(inner: Seq<char>)
    requires
        !"/api/v1/crates/"@.is_prefix_of(inner + "/download"@),
        !"/download"@.is_suffix_of(inner),
    ensures
        ({
            let route = routing::route_of("GET"@, "/api/v1/crates/"@ + inner + "/download"@);
            let parts = text::split(inner, '/');
            &&& parts.len() == 2 ==> route == (RouteView::Download {
                crate_name: parts[0],
                version: parts[1],
            })
            &&& parts.len() != 2 ==> route is Refused && is_plain(
                route->Refused_0,
                400,
                "text/plain"@,
                encode_utf8("Invalid download path"@),
            )
        }),
{
    let before = "/api/v1/crates/"@;
    let after = "/download"@;
    let rest = inner + after;
    let path = before + inner + after;
    assert(path =~= before + rest);
    lemma_download_arm(rest);
    reveal_strlit("/api/v1/crates/");
    reveal_strlit("/download");
    crate::laws::texts::law_leading_copies_are_dropped(rest, before);
    crate::laws::texts::law_trailing_copies_are_dropped(inner, after);
    assert(path.subrange(path.len() - after.len(), path.len() as int) =~= after);
}

/// What begins with the path of the crates and ends with `/download` is a download, and one
/// more copy of either makes no difference.
pub proof fn law_repeated_ends_make_no_difference(rest: Seq<char>)
    requires
        "/download"@.is_suffix_of("/api/v1/crates/"@ + rest),
    ensures
        ({
            let path = "/api/v1/crates/"@ + rest;
            &&& routing::route_of("GET"@, "/api/v1/crates/"@ + path) == routing::route_of(
                "GET"@,
                path,
            )
            &&& routing::route_of("GET"@, path + "/download"@) == routing::route_of("GET"@, path)
        }),
{
    let before = "/api/v1/crates/"@;
    let after = "/download"@;
    let path = before + rest;
    lemma_download_arm(rest);
    lemma_download_arm(path);
    lemma_download_arm(rest + after);
    reveal_strlit("/api/v1/crates/");
    reveal_strlit("/download");
    crate::laws::texts::law_leading_copies_are_dropped(path, before);
    let longer = before + path;
    assert(longer.subrange(longer.len() - after.len(), longer.len() as int) =~= path.subrange(
        path.len() - after.len(),
        path.len() as int,
    ));
    let more = path + after;
    assert(more =~= before + (rest + after));
    assert(more.subrange(more.len() - after.len(), more.len() as int) =~= after);
    lemma_trimmed_alike(rest, before, after);
}

/// A trailing copy makes no difference to what is left between the ends.
proof fn lemma_trimmed_alike(rest: Seq<char>, before: Seq<char>, after: Seq<char>)
    requires
        before == "/api/v1/crates/"@,
        after == "/download"@,
        after.is_suffix_of(before + rest),
    ensures
        text::trim_end_all(text::trim_start_all(before + rest + after, before), after)
            == text::trim_end_all(text::trim_start_all(before + rest, before), after),
    decreases rest.len(),
{
    reveal_strlit("/api/v1/crates/");
    reveal_strlit("/download");
    let path = before + rest;
    assert(path + after =~= before + (rest + after));
    crate::laws::texts::law_leading_copies_are_dropped(rest, before);
    crate::laws::texts::law_leading_copies_are_dropped(rest + after, before);
    if before.is_prefix_of(rest) {
        let inner = rest.skip(before.len() as int);
        assert(rest.subrange(0, before.len() as int) =~= before);
        assert(before + inner =~= rest);
        assert(rest.subrange(rest.len() - after.len(), rest.len() as int) =~= path.subrange(
            path.len() - after.len(),
            path.len() as int,
        ));
        lemma_trimmed_alike(inner, before, after);
        assert(before + inner + after =~= rest + after);
    } else {
        assert(!before.is_prefix_of(rest + after)) by {
            if rest.len() < before.len() {
                lemma_ends_apart(rest, before, after);
            } else if before.is_prefix_of(rest + after) {
                assert((rest + after).subrange(0, before.len() as int) =~= rest.subrange(
                    0,
                    before.len() as int,
                ));
            }
        }
        crate::laws::texts::law_trailing_copies_are_dropped(rest, after);
    }
}

/// A path that ends with `/download` cannot be cut so that the rest begins the path of the
/// crates.
proof fn lemma_ends_apart(rest: Seq<char>, before: Seq<char>, after: Seq<char>)
    requires
        before == "/api/v1/crates/"@,
        after == "/download"@,
        rest.len() < before.len(),
        after.is_suffix_of(before + rest),
    ensures
        !before.is_prefix_of(rest + after),
{
    reveal_strlit("/api/v1/crates/");
    reveal_strlit("/download");
    let all = rest + after;
    let path = before + rest;
    let n = rest.len() as int;
    assert(path.subrange(path.len() - 9, path.len() as int) =~= after);
    assert(all[n] == '/');
    if n + 1 < 15 {
        assert(all[n + 1] == 'd');
        lemma_begins_not(before, all, n + 1);
    } else {
        assert(path.subrange(path.len() - 9, path.len() as int)[8] == path[path.len() - 1]);
        assert(path[path.len() - 1] == rest[13]);
        assert(all[13] == 'd');
        lemma_begins_not(before, all, 13);
    }
}

/// What begins with the path of the crates is no lookup; where it also ends with
/// `/download`, the parts between decide.
proof fn lemma_download_arm(rest: Seq<char>)
    ensures
        ({
            let path = "/api/v1/crates/"@ + rest;
            let parts = routing::download_parts(path);
            "/download"@.is_suffix_of(path) ==> routing::route_of("GET"@, path) == if parts.len()
                == 2 {
                RouteView::Download { crate_name: parts[0], version: parts[1] }
            } else {
                RouteView::Refused(endpoints::error_response(400, "Invalid download path"@))
            }
        }),
{
    let before = "/api/v1/crates/"@;
    let path = before + rest;
    reveal_strlit("/api/v1/crates/");
    reveal_strlit("/config.json");
    reveal_strlit("/1/");
    reveal_strlit("/2/");
    reveal_strlit("/3/");
    assert(path[1] == 'a' && path[3] == 'i');
    assert("/1/"@[1] == '1' && "/2/"@[1] == '2' && "/3/"@[1] == '3' && "/config.json"@[1] == 'c');
    lemma_begins_not("/1/"@, path, 1);
    lemma_begins_not("/2/"@, path, 1);
    lemma_begins_not("/3/"@, path, 1);
    assert(path.subrange(0, before.len() as int) =~= before);
}

/// What nothing answers to is not found: every method but GET and the one PUT, and every
/// path that leads nowhere.
pub proof fn law_other_requests_are_not_found(method: Seq<char>, path: Seq<char>)
    requires
        method != "GET"@ && !(method == "PUT"@ && path == "/api/v1/crates/new"@) || method
            == "GET"@ && {
            &&& path != "/config.json"@
            &&& !"/1/"@.is_prefix_of(path)
            &&& !"/2/"@.is_prefix_of(path)
            &&& !"/3/"@.is_prefix_of(path)
            &&& !(path.len() > 6 && path[3] == '/' && path[6] == '/')
            &&& !"/api/v1/crates"@.is_prefix_of(path)
        },
    ensures
        routing::route_of(method, path) matches RouteView::Refused(r) && is_plain(
            r,
            404,
            "text/plain"@,
            encode_utf8("Not found"@),
        ),
{
    reveal_strlit("/api/v1/crates");
    reveal_strlit("/api/v1/crates/");
    if "/api/v1/crates/"@.is_prefix_of(path) {
        assert(path.subrange(0, 15)[0] == path[0]);
        assert(path.subrange(0, 14) =~= "/api/v1/crates/"@.take(14));
        assert("/api/v1/crates/"@.take(14) =~= "/api/v1/crates"@);
    }
}

/// A download without a version is refused.
pub proof fn law_downloads_take_a_crate_and_a_version(part: Seq<char>)
    requires
        !part.contains('/'),
    ensures
        routing::route_of("GET"@, "/api/v1/crates/"@ + part + "/download"@) matches RouteView::Refused(
            r,
        ) && is_plain(r, 400, "text/plain"@, encode_utf8("Invalid download path"@)),
{
    let before = "/api/v1/crates/"@;
    let after = "/download"@;
    let rest = part + after;
    let path = before + part + after;
    reveal_strlit("/api/v1/crates/");
    reveal_strlit("/download");
    reveal_strlit("/config.json");
    reveal_strlit("/1/");
    reveal_strlit("/2/");
    reveal_strlit("/3/");
    assert(path =~= before + rest);
    assert(path[1] == 'a' && path[3] == 'i');
    assert("/1/"@[1] == '1' && "/2/"@[1] == '2' && "/3/"@[1] == '3' && "/config.json"@[1] == 'c');
    lemma_begins_not("/1/"@, path, 1);
    lemma_begins_not("/2/"@, path, 1);
    lemma_begins_not("/3/"@, path, 1);
    assert(path.subrange(0, before.len() as int) =~= before);
    assert(path.subrange(path.len() - after.len(), path.len() as int) =~= after);
    assert(path.skip(before.len() as int) =~= rest);
    assert(!before.is_prefix_of(rest)) by {
        if part.len() > 0 {
            assert(part.contains(part[0]));
            assert(rest[0] == part[0]);
            lemma_begins_not(before, rest, 0);
        } else {
            assert(rest[1] == 'd' && before[1] == 'a');
            lemma_begins_not(before, rest, 1);
        }
    }
    crate::laws::texts::law_leading_copies_are_dropped(rest, before);
    assert(before + rest =~= path);
    assert(text::trim_start_all(path, before) == rest);
    assert(!after.is_suffix_of(part)) by {
        if after.is_suffix_of(part) {
            let at = part.len() - after.len();
            assert(part.subrange(at, part.len() as int)[0] == part[at]);
            assert(part.contains(part[at]));
        }
    }
    crate::laws::texts::law_trailing_copies_are_dropped(part, after);
    assert(text::trim_end_all(rest, after) == part);
    text::lemma_split_once_none(part, '/');
    assert(text::split(part, '/') == seq![part]);
}

/// Paths in ASCII, as HTTP asks for, can always be routed.
pub proof fn law_ascii_paths_are_routable(method: Seq<char>, path: Seq<char>)
    requires
        is_ascii_chars(path),
    ensures
        routing::routable(method, path),
{
    if path.len() > 6 {
        text::lemma_ascii_bytes(path, 7, path.len() as int);
    }
}

/// Where clients reach the server: wildcard addresses are not to be reached, the others are
/// themselves.
pub proof fn law_wildcard_hosts_are_reached_locally(host: Seq<char>)
    ensures
        cli::connect_host_of("0.0.0.0"@) == "127.0.0.1"@,
        cli::connect_host_of("::"@) == "::1"@,
        host != "0.0.0.0"@ && host != "::"@ ==> cli::connect_host_of(host) == host,
{
    reveal_strlit("0.0.0.0");
    reveal_strlit("::");
    assert("0.0.0.0"@.len() != "::"@.len());
}

/// TLS is on unless it is switched off or a command is run; the address of the proxy says
/// so, and names host and port. A given certificate takes its key, and only without one is
/// one made.
pub proof fn law_flags_decide_so(args: Args, certificate: Certificate)
    ensures
        args.wants_tls() <==> args.no_tls == false && args.command_line is None,
        args.wants_tls() ==> args.proxy_address() == "https://"@ + cli::connect_host_of(args.host@)
            + seq![':'] + text::decimal(args.port as nat) + seq!['/'],
        !args.wants_tls() ==> args.proxy_address() == "http://"@ + cli::connect_host_of(args.host@)
            + seq![':'] + text::decimal(args.port as nat) + seq!['/'],
        args.lacks_key() <==> args.wants_tls() && args.tls_cert is Some && args.tls_key is None,
        args.tls_cert is None ==> (args.is_certificate(certificate) <==> certificate is SelfSigned),
        args.tls_cert is Some && args.tls_key is None ==> !args.is_certificate(certificate),
        args.tls_cert is Some && args.tls_key is Some ==> (args.is_certificate(certificate)
            <==> certificate is Files && certificate->cert@ == args.tls_cert->0@
            && certificate->key@ == args.tls_key->0@),
{
    reveal_strlit("https");
    reveal_strlit("http");
    reveal_strlit("https://");
    reveal_strlit("http://");
    reveal_strlit("://");
    reveal_strlit(":");
    reveal_strlit("/");
    assert("https://"@ =~= "https"@ + "://"@);
    assert("http://"@ =~= "http"@ + "://"@);
    let host = cli::connect_host_of(args.host@);
    let port = text::decimal(args.port as nat);
    if args.wants_tls() {
        assert(args.proxy_address() =~= "https://"@ + host + seq![':'] + port + seq!['/']);
    } else {
        assert(args.proxy_address() =~= "http://"@ + host + seq![':'] + port + seq!['/']);
    }
}

/// Certificates and keys are seen in full, and so are the answers of a layer.
pub proof fn law_identities_are_seen_in_full(
    certs: Seq<Vec<u8>>,
    key: PrivateKey,
    entries: Vec<IndexEntry>,
    e: RegistryError,
)
    ensures
        tls::ders(certs).len() == certs.len(),
        forall|i: int| 0 <= i < certs.len() ==> #[trigger] tls::ders(certs)[i] == certs[i]@,
        tls::key_view(key).0 == key.form,
        tls::key_view(key).1 == key.der@,
        walk::lookup_view(Ok(entries)) == Ok::<Seq<IndexEntry>, RegistryError>(entries@),
        walk::lookup_view(Err(e)) == Err::<Seq<IndexEntry>, RegistryError>(e),
{
}

} // verus!
