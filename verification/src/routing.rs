//! Which part of the server a request that came through the proxy is for.

use vstd::prelude::*;
use vstd::utf8::*;

use crate::endpoints;
use crate::endpoints::{InternalResponse, ResponseView};
use crate::registry::remote;
use crate::registry::shard;
use crate::text;
use crate::text::{
    byte_len, cut, cut_at_byte, ends_with, same_text, skip_chars, split_on, starts_with,
    trim_end_matches, trim_start_matches,
};

verus! {

/// What a request asks for.
pub enum Route {
    /// What the server says of itself.
    Config,
    /// The index entries of a crate.
    Lookup { crate_name: String },
    /// A crate file.
    Download { crate_name: String, version: String },
    /// A search, which goes to the upstream server. The query is all that follows the path.
    Search { query: String },
    /// To take a crate in.
    Publish,
    /// Nothing there is: the request is answered with this.
    Refused(InternalResponse),
}

/// What a `Route` says.
pub enum RouteView {
    Config,
    Lookup { crate_name: Seq<char> },
    Download { crate_name: Seq<char>, version: Seq<char> },
    Search { query: Seq<char> },
    Publish,
    Refused(ResponseView),
}

impl View for Route {
    type V = RouteView;

    open spec fn view(&self) -> RouteView {
        match self {
            Route::Config => RouteView::Config,
            Route::Lookup { crate_name } => RouteView::Lookup { crate_name: crate_name@ },
            Route::Download { crate_name, version } => RouteView::Download {
                crate_name: crate_name@,
                version: version@,
            },
            Route::Search { query } => RouteView::Search { query: query@ },
            Route::Publish => RouteView::Publish,
            Route::Refused(response) => RouteView::Refused(response@),
        }
    }
}

/// Whether a path begins with two directories of two characters each, as that of a crate
/// with a name of four characters or more does.
pub open spec fn has_two_directories(path: Seq<char>) -> bool {
    path.len() > 6 && path[3] == '/' && path[6] == '/'
}

/// Whether a path begins with the directory of the crates with names of one, two or three
/// characters.
pub open spec fn has_short_directory(path: Seq<char>) -> bool {
    "/1/"@.is_prefix_of(path) || "/2/"@.is_prefix_of(path) || "/3/"@.is_prefix_of(path)
}

/// The crate and the version in the path of a download.
pub open spec fn download_parts(path: Seq<char>) -> Seq<Seq<char>> {
    text::split(
        text::trim_end_all(text::trim_start_all(path, "/api/v1/crates/"@), "/download"@),
        '/',
    )
}

/// What a GET of a path asks for.
pub open spec fn get_route(path: Seq<char>) -> RouteView {
    if path == "/config.json"@ {
        RouteView::Config
    } else if "/1/"@.is_prefix_of(path) || "/2/"@.is_prefix_of(path) {
        RouteView::Lookup { crate_name: path.skip(3) }
    } else if "/3/"@.is_prefix_of(path) {
        match text::split_once(path.skip(3), '/') {
            Some((_, name)) => RouteView::Lookup { crate_name: name },
            None => RouteView::Refused(endpoints::error_response(400, "Invalid path"@)),
        }
    } else if has_two_directories(path) {
        RouteView::Lookup {
            crate_name: text::byte_slice(path, 7, encode_utf8(path).len() as int),
        }
    } else if "/api/v1/crates/"@.is_prefix_of(path) && "/download"@.is_suffix_of(path) {
        let parts = download_parts(path);
        if parts.len() == 2 {
            RouteView::Download { crate_name: parts[0], version: parts[1] }
        } else {
            RouteView::Refused(endpoints::error_response(400, "Invalid download path"@))
        }
    } else if "/api/v1/crates"@.is_prefix_of(path) {
        RouteView::Search { query: path.skip("/api/v1/crates"@.len() as int) }
    } else {
        RouteView::Refused(endpoints::error_response(404, "Not found"@))
    }
}

/// What a request asks for.
pub open spec fn route_of(method: Seq<char>, path: Seq<char>) -> RouteView {
    if method == "GET"@ {
        get_route(path)
    } else if method == "PUT"@ && path == "/api/v1/crates/new"@ {
        RouteView::Publish
    } else {
        RouteView::Refused(endpoints::error_response(404, "Not found"@))
    }
}

/// Whether the crate's name in the path of a request can be cut off: where two directories
/// stand before it, it begins with the eighth byte. In ASCII text it always can.
pub open spec fn routable(method: Seq<char>, path: Seq<char>) -> bool {
    method == "GET"@ && !has_short_directory(path) && has_two_directories(path) ==> text::cuts_at(
        path,
        7,
    )
}

/// Whether a path begins with two directories of two characters each.
fn in_two_directories(path: &str) -> (yes: bool)
    ensures
        yes == has_two_directories(path@),
{
    let len = path.unicode_len();
    len > 6 && path.get_char(3) == '/' && path.get_char(6) == '/'
}

/// Whether the crate's name in the path of a request can be cut off, if there is one.
pub fn is_routable(method: &str, path: &str) -> (yes: bool)
    ensures
        yes == routable(method@, path@),
{
    if same_text(method, "GET") && !starts_with(path, "/1/") && !starts_with(path, "/2/")
        && !starts_with(path, "/3/") && in_two_directories(path) {
        byte_len(path) >= 7 && path.is_char_boundary(7)
    } else {
        true
    }
}

/// Finds what a GET of a path asks for.
fn route_get(path: &str) -> (route: Route)
    requires
        !has_short_directory(path@) && has_two_directories(path@) ==> text::cuts_at(path@, 7),
    ensures
        route@ == get_route(path@),
{
    proof {
        reveal_strlit("/1/");
        reveal_strlit("/2/");
        reveal_strlit("/3/");
    }
    if same_text(path, "/config.json") {
        return Route::Config;
    }
    if starts_with(path, "/1/") || starts_with(path, "/2/") {
        return Route::Lookup { crate_name: String::from_str(skip_chars(path, 3)) };
    }
    if starts_with(path, "/3/") {
        return match cut(skip_chars(path, 3), '/') {
            Some((_, name)) => Route::Lookup { crate_name: String::from_str(name) },
            None => Route::Refused(InternalResponse::error(400, "Invalid path")),
        };
    }
    if in_two_directories(path) {
        return Route::Lookup { crate_name: String::from_str(cut_at_byte(path, 7).1) };
    }
    if starts_with(path, "/api/v1/crates/") && ends_with(path, "/download") {
        let inner = trim_end_matches(trim_start_matches(path, "/api/v1/crates/"), "/download");
        let parts = split_on(inner, '/');
        assert(parts@.len() == download_parts(path@).len());
        if parts.len() == 2 {
            assert(parts@[0]@ == download_parts(path@)[0]);
            assert(parts@[1]@ == download_parts(path@)[1]);
            return Route::Download {
                crate_name: String::from_str(parts[0]),
                version: String::from_str(parts[1]),
            };
        }
        return Route::Refused(InternalResponse::error(400, "Invalid download path"));
    }
    if starts_with(path, "/api/v1/crates") {
        let n = "/api/v1/crates".unicode_len();
        return Route::Search { query: String::from_str(skip_chars(path, n)) };
    }
    Route::Refused(InternalResponse::error(404, "Not found"))
}

/// Finds what a request that came through the proxy asks for.
pub fn handle_internal_request(method: &str, path: &str) -> (route: Route)
    requires
        routable(method@, path@),
    ensures
        route@ == route_of(method@, path@),
{
    if same_text(method, "GET") {
        return route_get(path);
    }
    if same_text(method, "PUT") && same_text(path, "/api/v1/crates/new") {
        return Route::Publish;
    }
    Route::Refused(InternalResponse::error(404, "Not found"))
}

/// A request to take a crate in is one PUT to one path.
pub proof fn law_publishing_has_one_address(method: Seq<char>, path: Seq<char>)
    ensures
        route_of(method, path) is Publish <==> method == "PUT"@ && path == "/api/v1/crates/new"@,
{
    reveal_strlit("GET");
    reveal_strlit("PUT");
    assert("GET"@[0] != "PUT"@[0]);
}

/// A text begins with the characters of its prefix.
proof fn lemma_begins(prefix: Seq<char>, s: Seq<char>)
    ensures
        prefix.is_prefix_of(s) ==> forall|i: int|
            0 <= i < prefix.len() ==> s[i] == #[trigger] prefix[i],
{
    if prefix.is_prefix_of(s) {
        assert forall|i: int| 0 <= i < prefix.len() implies s[i] == #[trigger] prefix[i] by {
            assert(s.subrange(0, prefix.len() as int)[i] == s[i]);
        }
    }
}

/// A name in ASCII whose path in an index is not taken for another: with a slash in the
/// wrong place, it would be.
pub open spec fn has_clear_path(lower: Seq<char>) -> bool {
    &&& is_ascii_chars(lower)
    &&& lower.len() > 0
    &&& !(lower.len() == 3 && lower[0] == '/')
    &&& !(lower.len() > 3 && '1' <= lower[0] <= '3' && lower[1] == '/')
}

/// A crate is looked up under the path that a client of a sparse index asks for: what is
/// found is the crate's name, in lower case.
pub proof fn law_index_paths_are_understood(lower: Seq<char>)
    requires
        has_clear_path(lower),
    ensures
        routable("GET"@, remote::index_path_of(lower)),
        route_of("GET"@, remote::index_path_of(lower)) == (RouteView::Lookup { crate_name: lower }),
{
    let path = remote::index_path_of(lower);
    shard::law_ascii_names_have_a_place(lower);
    reveal_strlit("/config.json");
    reveal_strlit("/1/");
    reveal_strlit("/2/");
    reveal_strlit("/3/");
    reveal_strlit("/");
    reveal_strlit("1");
    reveal_strlit("2");
    reveal_strlit("3");
    lemma_begins("/1/"@, path);
    lemma_begins("/2/"@, path);
    lemma_begins("/3/"@, path);
    if lower.len() == 1 {
        assert("/1/"@.is_prefix_of(path));
        assert(path[2] == '/');
        assert(path.skip(3) =~= lower);
    } else if lower.len() == 2 {
        assert("/2/"@.is_prefix_of(path));
        assert(path[2] == '/');
        assert(path.skip(3) =~= lower);
    } else if lower.len() == 3 {
        assert("/3/"@.is_prefix_of(path));
        assert("/1/"@[1] == '1' && "/2/"@[1] == '2' && path[1] == '3');
        assert(path[2] == '/');
        assert(path.skip(3) =~= lower.take(1) + seq!['/'] + lower);
        text::lemma_split_once_of(lower.take(1), '/', lower);
    } else {
        assert(path[1] == lower[0]);
        assert(path[2] == lower[1]);
        assert(path[3] == '/');
        assert(path[6] == '/');
        assert(!has_short_directory(path)) by {
            assert("/1/"@[1] == '1' && "/2/"@[1] == '2' && "/3/"@[1] == '3');
            assert("/1/"@[2] == '/' && "/2/"@[2] == '/' && "/3/"@[2] == '/');
        }
        assert(is_ascii_chars(path)) by {
            assert forall|i: int| 0 <= i < path.len() implies (#[trigger] path[i] as u32)
                < 128 by {
                if i == 1 || i == 2 {
                    assert(path[i] == lower[i - 1]);
                } else if i == 4 || i == 5 {
                    assert(path[i] == lower[i - 2]);
                } else if i >= 7 {
                    assert(path[i] == lower[i - 7]);
                }
            }
        }
        text::lemma_ascii_bytes(path, 7, path.len() as int);
        assert(path.subrange(7, path.len() as int) =~= lower);
    }
}

/// The path under which a client downloads a crate file.
pub open spec fn download_path(crate_name: Seq<char>, version: Seq<char>) -> Seq<char> {
    "/api/v1/crates/"@ + crate_name + "/"@ + version + "/download"@
}

/// A crate file is found under the path that a client asks for.
pub proof fn law_download_paths_are_understood(crate_name: Seq<char>, version: Seq<char>)
    requires
        !crate_name.contains('/'),
        !version.contains('/'),
        version != "download"@,
    ensures
        routable("GET"@, download_path(crate_name, version)),
        route_of("GET"@, download_path(crate_name, version)) == (RouteView::Download {
            crate_name,
            version,
        }),
{
    let before = "/api/v1/crates/"@;
    let after = "/download"@;
    let path = download_path(crate_name, version);
    let inner = crate_name + seq!['/'] + version;
    let rest = inner + after;
    reveal_strlit("/api/v1/crates/");
    reveal_strlit("/download");
    reveal_strlit("download");
    reveal_strlit("/config.json");
    reveal_strlit("/1/");
    reveal_strlit("/2/");
    reveal_strlit("/3/");
    reveal_strlit("/");
    assert(path =~= before + rest);
    assert(path[1] == before[1]);
    assert(path[3] == before[3]);
    assert(before.is_prefix_of(path));
    assert(after.is_suffix_of(path));
    // The prefix is cut off once.
    assert(path.skip(before.len() as int) =~= rest);
    assert(!before.is_prefix_of(rest)) by {
        if before.is_prefix_of(rest) {
            assert(rest[0] == before[0]);
            assert(rest[4] == before[4]);
            assert(rest[5] == before[5]);
            let n = crate_name.len() as int;
            if n > 0 {
                assert(rest[0] == crate_name[0]);
                assert(crate_name.contains('/'));
            }
            let m = version.len() as int;
            if m > 3 {
                assert(rest[4] == version[3]);
                assert(version.contains('/'));
            } else {
                assert(rest[4] == after[4 - 1 - m]);
                assert(rest[5] == after[5 - 1 - m]);
            }
        }
    }
    assert(text::trim_start_all(rest, before) == rest);
    assert(text::trim_start_all(path, before) == rest);
    // The suffix is cut off once.
    assert(after.is_suffix_of(rest));
    assert(rest.take(rest.len() - after.len()) =~= inner);
    assert(!after.is_suffix_of(inner)) by {
        if after.is_suffix_of(inner) {
            let at = inner.len() - after.len();
            assert(inner.subrange(at, inner.len() as int) =~= after);
            assert(inner[at] == after[0]);
            let n = crate_name.len() as int;
            if at < n {
                assert(inner[at] == crate_name[at]);
                assert(crate_name.contains('/'));
            } else if at > n {
                assert(inner[at] == version[at - n - 1]);
                assert(version.contains('/'));
            } else {
                assert forall|k: int| 0 <= k < 8 implies version[k] == #[trigger] "download"@[k] by {
                    assert(version[k] == inner[at + 1 + k]);
                    assert(inner[at + 1 + k] == after[1 + k]);
                }
                assert(version =~= "download"@);
            }
        }
    }
    assert(text::trim_end_all(inner, after) == inner);
    assert(text::trim_end_all(rest, after) == inner);
    // One slash is left.
    text::lemma_split_once_of(crate_name, '/', version);
    text::lemma_split_once_none(version, '/');
    assert(text::split(version, '/') == seq![version]);
    assert(text::split(inner, '/') =~= seq![crate_name, version]);
}

/// A search goes to the upstream server with all that follows the path.
pub proof fn law_searches_are_understood(query: Seq<char>)
    requires
        !(query.len() > 0 && query[0] == '/' && "/download"@.is_suffix_of(
            "/api/v1/crates"@ + query,
        )),
    ensures
        routable("GET"@, "/api/v1/crates"@ + query),
        route_of("GET"@, "/api/v1/crates"@ + query) == (RouteView::Search { query }),
{
    let before = "/api/v1/crates"@;
    let path = before + query;
    reveal_strlit("/api/v1/crates/");
    reveal_strlit("/api/v1/crates");
    reveal_strlit("/config.json");
    reveal_strlit("/1/");
    reveal_strlit("/2/");
    reveal_strlit("/3/");
    assert(path[1] == before[1]);
    assert(path[3] == before[3]);
    assert(before.is_prefix_of(path));
    assert(path.skip(before.len() as int) =~= query);
    lemma_begins("/api/v1/crates/"@, path);
    assert("/api/v1/crates/"@[14] == '/');
}

} // verus!
