use std::collections::HashMap;

use cargo_overlay_registry::cli::{
    connect_host, exit_code, wait_step, Args, Certificate, Command, ServerMode, WaitStep,
};
use cargo_overlay_registry::endpoints::{
    find_text, find_token, handle_api_download, handle_api_publish, handle_api_search,
    handle_config, handle_index_lookup, internal_handle_config, internal_handle_download,
    internal_handle_index_lookup, internal_handle_publish, internal_handle_search,
    internal_search_request, join_written, proxy_api_request, proxy_api_response, proxy_config,
    read_publish_request, search_header_name, serialize_index_entries, Content, InternalResponse,
    ProxyReply, Reply, UpstreamAnswer,
};
use cargo_overlay_registry::registry::index::read_entries;
use cargo_overlay_registry::routing::{handle_internal_request, is_routable, Route};
use cargo_overlay_registry::tls::{
    make_identity, server_identity, IdentityError, KeyForm, PrivateKey,
};
use cargo_overlay_registry::types::{IndexEntry, PublishMetadata, PublishResponse, RegistryConfig};
use cargo_overlay_registry::{RegistryError, RegistrySpec, RemoteRegistry};

fn entry(vers: &str) -> IndexEntry {
    IndexEntry {
        name: "x".to_string(),
        vers: vers.to_string(),
        deps: vec![],
        cksum: String::new(),
        features: HashMap::new(),
        features2: None,
        yanked: false,
        links: None,
        rust_version: None,
        v: None,
    }
}

/// The version stands for the entry.
fn write(e: &IndexEntry) -> Option<String> {
    if e.vers == "unwritable" {
        None
    } else {
        Some(e.vers.clone())
    }
}

fn write_config(c: RegistryConfig) -> String {
    assert!(c.auth_required.is_none());
    format!("{}|{}", c.dl, c.api)
}

fn write_response(r: PublishResponse) -> String {
    let w = r.warnings;
    format!("{} {} {}", w.invalid_categories.len(), w.invalid_badges.len(), w.other.len())
}

fn text_of(reply: Reply) -> (u16, String) {
    match reply.content {
        Content::Text(t) => (reply.status, t),
        _ => panic!("no text"),
    }
}

fn json_of(reply: Reply) -> (u16, String) {
    match reply.content {
        Content::Json(j) => (reply.status, j),
        _ => panic!("no JSON"),
    }
}

fn pair(name: &str, value: &str) -> (String, String) {
    (name.to_string(), value.to_string())
}

fn seen(r: &InternalResponse) -> (u16, Vec<(&str, &str)>, &[u8]) {
    let headers = r.headers.iter().map(|(n, v)| (n.as_str(), v.as_str())).collect();
    (r.status, headers, &r.body)
}

fn json_error() -> serde_json::Error {
    serde_json::from_str::<serde_json::Value>("nope").unwrap_err()
}

#[test]
fn test_serialize_empty_entries() {
    let entries: Vec<IndexEntry> = vec![];
    assert_eq!(serialize_index_entries(&entries, write), "\n");
}

#[test]
fn entries_are_written_one_per_line() {
    let entries = [entry("1"), entry("unwritable"), entry("2")];
    assert_eq!(serialize_index_entries(&entries, write), "1\n2\n");
    assert_eq!(join_written(vec![None, Some("a".to_string()), None]), "a\n");
    assert_eq!(join_written(vec![None]), "\n");
}

#[test]
fn served_entries_are_read() {
    let entries = [entry("1"), entry("unwritable"), entry("2")];
    let body = serialize_index_entries(&entries, write);
    let back = read_entries(&body, |line| Some(entry(line)));
    let versions: Vec<&str> = back.iter().map(|e| e.vers.as_str()).collect();
    assert_eq!(versions, ["1", "2"]);
}

#[test]
fn responses_have_a_content_type() {
    assert_eq!(
        seen(&InternalResponse::ok_json("{}")),
        (200, vec![("content-type", "application/json")], &b"{}"[..])
    );
    assert_eq!(
        seen(&InternalResponse::ok_gzip(vec![1])),
        (200, vec![("content-type", "application/gzip")], &[1][..])
    );
    assert_eq!(
        seen(&InternalResponse::error(418, "é")),
        (418, vec![("content-type", "text/plain")], "é".as_bytes())
    );
}

#[test]
fn config_points_to_the_server() {
    let config = proxy_config("http://here");
    assert_eq!(config.dl, "http://here/api/v1/crates");
    assert_eq!(config.api, "http://here");
    assert_eq!(config.auth_required, None);
    let expected = "http://here/api/v1/crates|http://here";
    assert_eq!(json_of(handle_config("http://here", write_config)), (200, expected.to_string()));
    assert_eq!(
        seen(&internal_handle_config("http://here", write_config)),
        (200, vec![("content-type", "application/json")], expected.as_bytes())
    );
}

#[test]
fn lookups_are_answered() {
    assert_eq!(
        json_of(handle_index_lookup(Ok(vec![entry("1"), entry("2")]), write)),
        (200, "1\n2\n".to_string())
    );
    assert_eq!(text_of(handle_index_lookup(Ok(vec![]), write)), (404, "Not found".to_string()));
    assert_eq!(
        text_of(handle_index_lookup(Err(RegistryError::Network("x".to_string())), write)),
        (502, "Failed to lookup crate: network error: x".to_string())
    );
    assert_eq!(
        seen(&internal_handle_index_lookup(Ok(vec![entry("1")]), write)),
        (200, vec![("content-type", "application/json")], &b"1\n"[..])
    );
    assert_eq!(
        seen(&internal_handle_index_lookup(Ok(vec![]), write)),
        (404, vec![("content-type", "text/plain")], &b"Not found"[..])
    );
}

#[test]
fn publish_requests_are_read() {
    let decode = |_: &[u8]| -> Result<PublishMetadata, serde_json::Error> { Err(json_error()) };
    match read_publish_request(&[0; 4], decode) {
        Err(reply) => assert_eq!(text_of(reply), (400, "request body too short".to_string())),
        Ok(_) => panic!("read"),
    }
    match read_publish_request(&[0; 8], decode) {
        Err(reply) => {
            assert_eq!(text_of(reply), (400, format!("invalid metadata: {}", json_error())))
        }
        Ok(_) => panic!("read"),
    }
}

#[test]
fn publish_requests_are_answered() {
    assert_eq!(
        json_of(handle_api_publish(Ok("sum".to_string()), write_response)),
        (200, "0 0 0".to_string())
    );
    let errors = vec!["a".to_string(), "b".to_string()];
    assert_eq!(
        text_of(handle_api_publish(Err(RegistryError::ValidationFailed(errors)), write_response)),
        (400, "Validation failed: a; b".to_string())
    );
    assert_eq!(
        text_of(handle_api_publish(Err(RegistryError::NotFound), write_response)),
        (500, "Failed to publish: not found".to_string())
    );
    assert_eq!(
        seen(&internal_handle_publish(Err(RegistryError::NotSupported), write_response)),
        (
            500,
            vec![("content-type", "text/plain")],
            &b"Failed to publish: operation not supported"[..]
        )
    );
}

#[test]
fn publish_requests_are_answered_alike_on_both_ways() {
    let answers: [fn() -> Result<String, RegistryError>; 4] = [
        || Ok("sum".to_string()),
        || Err(RegistryError::ValidationFailed(vec!["a".to_string(), "b".to_string()])),
        || Err(RegistryError::Serialization(json_error())),
        || Err(RegistryError::NotFound),
    ];
    for answer in answers {
        let web = handle_api_publish(answer(), write_response).into_internal();
        let proxy = internal_handle_publish(answer(), write_response);
        assert_eq!(seen(&web), seen(&proxy));
    }
}

#[test]
fn tokens_are_found_alike_on_both_ways() {
    let headers = [pair("Cookie", "c"), pair("AuthoriZation", "one"), pair("authorization", "two")];
    let lower: Vec<(String, Option<String>)> =
        headers.iter().map(|(n, v)| (n.to_lowercase(), Some(v.clone()))).collect();
    assert_eq!(find_token(&headers), Some("one"));
    assert_eq!(find_text(&lower, "authorization"), Some("one"));
    assert_eq!(find_token(&headers[..1]), find_text(&lower[..1], "authorization"));
}

#[test]
fn downloads_are_answered() {
    assert!(matches!(
        handle_api_download(Ok(vec![1, 2])),
        Reply { status: 200, content: Content::Gzip(data) } if data == [1, 2]
    ));
    assert_eq!(
        text_of(handle_api_download(Err(RegistryError::NotFound))),
        (404, "Crate not found".to_string())
    );
    assert_eq!(
        text_of(handle_api_download(Err(RegistryError::NotSupported))),
        (502, "Failed to download: operation not supported".to_string())
    );
    assert_eq!(
        seen(&internal_handle_download(Ok(vec![1, 2]))),
        (200, vec![("content-type", "application/gzip")], &[1, 2][..])
    );
}

#[test]
fn token_is_that_of_the_first_authorization_header() {
    let headers = [pair("Accept", "*/*"), pair("AUTHORIZATION", "one"), pair("authorization", "two")];
    assert_eq!(find_token(&headers), Some("one"));
    assert_eq!(find_token(&headers[..1]), None);
    assert_eq!(find_token(&[]), None);
}

#[test]
fn requests_are_passed_on() {
    let text = |s: &str| Some(s.to_string());
    let headers = [
        ("accept".to_string(), text("*/*")),
        ("cookie".to_string(), text("c")),
        ("authorization".to_string(), text("t")),
        ("authorization".to_string(), text("u")),
    ];
    assert_eq!(find_text(&headers, "authorization"), Some("t"));
    for method in ["GET", "PUT", "DELETE", "POST"] {
        let request = proxy_api_request(method, "http://u", &headers).ok().unwrap();
        assert_eq!(request.method, method);
        assert_eq!(request.url, "http://u");
        assert_eq!(request.headers, [pair("authorization", "t"), pair("accept", "*/*")]);
    }
    match proxy_api_request("PATCH", "http://u", &headers) {
        Err(reply) => assert_eq!(text_of(reply), (405, "Method not allowed".to_string())),
        Ok(_) => panic!("passed on"),
    }
    // A value that is no text hides what follows it.
    let headers = [("accept".to_string(), None), ("accept".to_string(), text("x"))];
    assert_eq!(find_text(&headers, "accept"), None);
    assert!(proxy_api_request("GET", "u", &headers).ok().unwrap().headers.is_empty());
}

#[test]
fn searches_go_to_the_upstream_api() {
    let request = handle_api_search("https://up", Some("q=serde"), &[]).ok().unwrap();
    assert_eq!(request.method, "GET");
    assert_eq!(request.url, "https://up/api/v1/crates?q=serde");
    let request = handle_api_search("https://up", None, &[]).ok().unwrap();
    assert_eq!(request.url, "https://up/api/v1/crates");
}

#[test]
fn upstream_answers_are_passed_back() {
    let header = |name: &str| (name.to_string(), vec![200u8]);
    let read = UpstreamAnswer::Read {
        status: 201,
        headers: vec![header("connection"), header("etag"), header("transfer-encoding")],
        body: vec![7],
    };
    match proxy_api_response(read) {
        ProxyReply::Upstream { status, headers, body } => {
            assert_eq!(status, 201);
            assert_eq!(headers, [header("etag")]);
            assert_eq!(body, [7]);
        }
        ProxyReply::Own(_) => panic!("own reply"),
    }
    for (code, passed) in [(99, 500), (100, 100), (999, 999), (1000, 500)] {
        let read = UpstreamAnswer::Read { status: code, headers: vec![], body: vec![] };
        assert!(matches!(
            proxy_api_response(read),
            ProxyReply::Upstream { status, .. } if status == passed
        ));
    }
    match proxy_api_response(UpstreamAnswer::NotReached { why: "w".to_string() }) {
        ProxyReply::Own(reply) => {
            assert_eq!(text_of(reply), (502, "Failed to connect to upstream: w".to_string()))
        }
        ProxyReply::Upstream { .. } => panic!("passed back"),
    }
    match proxy_api_response(UpstreamAnswer::NotRead { why: "w".to_string() }) {
        ProxyReply::Own(reply) => {
            assert_eq!(text_of(reply), (502, "Failed to read upstream response: w".to_string()))
        }
        ProxyReply::Upstream { .. } => panic!("passed back"),
    }
}

#[test]
fn searches_through_the_proxy_keep_two_headers() {
    assert_eq!(search_header_name("authorization"), Some("Authorization"));
    assert_eq!(search_header_name("accept"), Some("Accept"));
    assert_eq!(search_header_name("Accept"), None);
    let headers = [
        pair("AUTHORIZATION", "t"),
        pair("Cookie", "c"),
        pair("aCCept", "a"),
        pair("authorization", "u"),
    ];
    let request = internal_search_request("https://up", "?q=x", &headers);
    assert_eq!(request.method, "GET");
    assert_eq!(request.url, "https://up/api/v1/crates?q=x");
    assert_eq!(
        request.headers,
        [pair("Authorization", "t"), pair("Accept", "a"), pair("Authorization", "u")]
    );
}

#[test]
fn searches_through_the_proxy_are_answered() {
    let read = UpstreamAnswer::Read {
        status: 200,
        headers: vec![
            ("connection".to_string(), Some("close".to_string())),
            ("etag".to_string(), Some("e".to_string())),
            ("x-raw".to_string(), None),
            ("transfer-encoding".to_string(), Some("chunked".to_string())),
        ],
        body: vec![7],
    };
    assert_eq!(
        seen(&internal_handle_search(read)),
        (200, vec![("etag", "e")], &[7][..])
    );
    assert_eq!(
        seen(&internal_handle_search(UpstreamAnswer::NotReached { why: "w".to_string() })),
        (502, vec![("content-type", "text/plain")], &b"Failed to connect to upstream: w"[..])
    );
    assert_eq!(
        seen(&internal_handle_search(UpstreamAnswer::NotRead { why: "w".to_string() })),
        (502, vec![("content-type", "text/plain")], &b"Failed to read upstream response: w"[..])
    );
}

fn lookup_of(path: &str) -> String {
    match handle_internal_request("GET", path) {
        Route::Lookup { crate_name } => crate_name,
        _ => panic!("no lookup"),
    }
}

fn refusal_of(method: &str, path: &str) -> (u16, String) {
    match handle_internal_request(method, path) {
        Route::Refused(r) => {
            assert_eq!(r.headers, [pair("content-type", "text/plain")]);
            (r.status, String::from_utf8(r.body).unwrap())
        }
        _ => panic!("not refused"),
    }
}

#[test]
fn index_paths_are_routed() {
    assert!(matches!(handle_internal_request("GET", "/config.json"), Route::Config));
    assert_eq!(lookup_of("/1/a"), "a");
    assert_eq!(lookup_of("/2/ab"), "ab");
    assert_eq!(lookup_of("/3/a/abc"), "abc");
    assert_eq!(lookup_of("/se/rd/serde"), "serde");
    assert_eq!(lookup_of("/1/"), "");
    assert_eq!(lookup_of("/3/a/b/c"), "b/c");
    assert_eq!(refusal_of("GET", "/3/abc"), (400, "Invalid path".to_string()));
    // The names begin with the eighth byte.
    assert!(is_routable("GET", "/éé/ab/abcd"));
    assert_eq!(lookup_of("/éé/ab/abcd"), "b/abcd");
    assert!(!is_routable("GET", "/ab/é€/abcd"));
    assert!(is_routable("PUT", "/ab/é€/abcd"));
    assert!(is_routable("GET", "/1/é€/abcd"));
}

#[test]
fn what_remote_registries_ask_for_is_understood() {
    for name in ["a", "ab", "abc", "abcd", "Serde_JSON", "1a/b"] {
        let path = RemoteRegistry::index_path(name);
        assert_eq!(lookup_of(&path), name.to_lowercase());
    }
    let r = RemoteRegistry::new(String::new(), String::new());
    for (name, version) in [("serde", "1.0.0"), ("", "api"), ("download", "1")] {
        match handle_internal_request("GET", &r.download_url(name, version)) {
            Route::Download { crate_name, version: v } => {
                assert_eq!((crate_name.as_str(), v.as_str()), (name, version))
            }
            _ => panic!("no download"),
        }
    }
}

#[test]
fn other_paths_are_routed() {
    let invalid = (400, "Invalid download path".to_string());
    assert_eq!(refusal_of("GET", "/api/v1/crates/serde/download"), invalid);
    assert_eq!(refusal_of("GET", "/api/v1/crates/a/b/c/download"), invalid);
    assert_eq!(refusal_of("GET", "/api/v1/crates/a/download/download"), invalid);
    match handle_internal_request("GET", "/api/v1/crates/api/v1/crates/a/b/download") {
        Route::Refused(r) => assert_eq!(r.status, 400),
        _ => panic!("not refused"),
    }
    match handle_internal_request("GET", "/api/v1/crates?q=a") {
        Route::Search { query } => assert_eq!(query, "?q=a"),
        _ => panic!("no search"),
    }
    match handle_internal_request("GET", "/api/v1/crates/serde") {
        Route::Search { query } => assert_eq!(query, "/serde"),
        _ => panic!("no search"),
    }
    assert!(matches!(handle_internal_request("PUT", "/api/v1/crates/new"), Route::Publish));
    let nothing = (404, "Not found".to_string());
    assert_eq!(refusal_of("PUT", "/api/v1/crates"), nothing);
    assert_eq!(refusal_of("POST", "/config.json"), nothing);
    assert_eq!(refusal_of("GET", "/"), nothing);
    assert_eq!(refusal_of("get", "/config.json"), nothing);
}

fn args() -> Args {
    Args {
        port: 8080,
        host: "0.0.0.0".to_string(),
        base_url: "https://crates.io".to_string(),
        registries: vec![RegistrySpec::local("/r")],
        no_proxy: false,
        read_only: false,
        ca_cert_out: None,
        tls_cert: None,
        tls_key: None,
        no_tls: false,
        permissive_publishing: false,
        command_line: None,
    }
}

#[test]
fn registries_have_a_default() {
    let shown = |a: &Args| -> Vec<String> {
        a.effective_registries().iter().map(|r| r.to_string()).collect()
    };
    let mut a = args();
    assert_eq!(shown(&a), ["local=/r"]);
    a.registries.push(RegistrySpec::crates_io());
    assert_eq!(shown(&a), ["local=/r", "crates.io"]);
    a.registries.clear();
    assert_eq!(shown(&a), ["local", "crates.io"]);
}

#[test]
fn commands_reach_the_server_without_tls() {
    let mut a = args();
    assert!(a.use_tls());
    a.command_line = Some(vec!["cargo".to_string()]);
    assert!(!a.use_tls());
    assert_eq!(a.proxy_url(), "http://127.0.0.1:8080/");
    a.command_line = None;
    a.no_tls = true;
    assert!(!a.use_tls());
}

#[test]
fn addresses_follow_from_host_and_port() {
    let mut a = args();
    assert_eq!(a.bind_addr(), "0.0.0.0:8080");
    assert_eq!(a.proxy_url(), "https://127.0.0.1:8080/");
    a.host = "example.org".to_string();
    a.port = 0;
    assert_eq!(a.bind_addr(), "example.org:0");
    assert_eq!(a.proxy_url(), "https://example.org:0/");
    assert_eq!(connect_host("0.0.0.0"), "127.0.0.1");
    assert_eq!(connect_host("::"), "::1");
    assert_eq!(connect_host("::2"), "::2");
}

#[test]
fn cargo_is_told_of_the_proxy() {
    let mut a = args();
    assert_eq!(
        a.cargo_env("/ca.pem"),
        [
            pair("CARGO_HTTP_PROXY", "https://127.0.0.1:8080/"),
            pair("CARGO_HTTP_CAINFO", "/ca.pem"),
            pair("CARGO_REGISTRY_TOKEN", "dummy"),
        ]
    );
    a.tls_cert = Some("/own.pem".to_string());
    assert_eq!(a.cainfo_path("/ca.pem"), "/own.pem");
    assert_eq!(a.cargo_env("/ca.pem")[1].1, "/own.pem");
    a.no_proxy = true;
    assert!(a.cargo_env("/ca.pem").is_empty());
}

#[test]
fn server_modes_follow_from_the_flags() {
    let mut a = args();
    assert!(matches!(
        a.server_mode(),
        ServerMode::Proxy { tls: Some(Certificate::SelfSigned) }
    ));
    a.tls_key = Some("k".to_string());
    assert!(matches!(
        a.server_mode(),
        ServerMode::Proxy { tls: Some(Certificate::SelfSigned) }
    ));
    a.tls_cert = Some("c".to_string());
    assert!(matches!(
        a.server_mode(),
        ServerMode::Proxy { tls: Some(Certificate::Files { cert, key }) } if cert == "c" && key == "k"
    ));
    a.no_proxy = true;
    assert!(matches!(
        a.server_mode(),
        ServerMode::Tls { certificate: Certificate::Files { cert, key } } if cert == "c" && key == "k"
    ));
    a.no_tls = true;
    assert!(matches!(a.server_mode(), ServerMode::Http));
    a.no_proxy = false;
    assert!(matches!(a.server_mode(), ServerMode::Proxy { tls: None }));
}

#[test]
fn certificate_without_its_key_is_refused() {
    let mut a = args();
    a.tls_cert = Some("c".to_string());
    assert!(matches!(a.server_mode(), ServerMode::MissingKey));
    a.no_proxy = true;
    assert!(matches!(a.server_mode(), ServerMode::MissingKey));
    // Without TLS there is no need of either.
    a.no_tls = true;
    assert!(matches!(a.server_mode(), ServerMode::Http));
    a.no_tls = false;
    a.no_proxy = false;
    a.command_line = Some(vec!["cargo".to_string()]);
    assert!(matches!(a.server_mode(), ServerMode::Proxy { tls: None }));
}

#[test]
fn options_follow_from_the_flags() {
    let mut a = args();
    a.read_only = true;
    assert!(a.build_options().read_only && !a.build_options().permissive_publishing);
    a.permissive_publishing = true;
    assert!(a.build_options().permissive_publishing);
}

#[test]
fn commands_are_split_into_program_and_arguments() {
    let mut a = args();
    assert!(matches!(a.command(), Command::Serve));
    a.command_line = Some(vec![]);
    assert!(matches!(a.command(), Command::Missing));
    a.command_line = Some(vec!["cargo".to_string(), "publish".to_string(), "-q".to_string()]);
    match a.command() {
        Command::Run { program, arguments } => {
            assert_eq!(program, "cargo");
            assert_eq!(arguments, ["publish", "-q"]);
        }
        _ => panic!("nothing to run"),
    }
    assert_eq!(exit_code(Some(3)), 3);
    assert_eq!(exit_code(None), 1);
}

fn pem(sections: &[(&str, &str)]) -> Vec<u8> {
    let mut text = String::from("a note\n");
    for (label, base64) in sections {
        text += &format!("-----BEGIN {}-----\n{}\n-----END {}-----\n", label, base64, label);
    }
    text.into_bytes()
}

#[test]
fn identities_are_read_from_pem_files() {
    let certs = pem(&[("CERTIFICATE", "AQID"), ("PRIVATE KEY", "CQ=="), ("CERTIFICATE", "BAU=")]);
    for (label, expected) in [
        ("RSA PRIVATE KEY", KeyForm::Pkcs1),
        ("EC PRIVATE KEY", KeyForm::Sec1),
        ("PRIVATE KEY", KeyForm::Pkcs8),
    ] {
        let key = pem(&[("CERTIFICATE", "AQID"), (label, "BgcI"), ("PRIVATE KEY", "CQ==")]);
        let identity = server_identity(&certs, &key).unwrap();
        assert_eq!(identity.certs, [vec![1, 2, 3], vec![4, 5]]);
        assert_eq!(identity.key.der, [6, 7, 8]);
        assert_eq!(format!("{:?}", identity.key.form), format!("{:?}", expected));
    }
    // A file without certificates is not broken.
    let key = pem(&[("PRIVATE KEY", "BgcI")]);
    assert!(server_identity(&[], &key).unwrap().certs.is_empty());
}

#[test]
fn identities_are_refused() {
    let cert = pem(&[("CERTIFICATE", "AQID")]);
    let key = pem(&[("PRIVATE KEY", "BgcI")]);
    let broken = pem(&[("CERTIFICATE", "***")]);
    let message = |cert: &[u8], key: &[u8]| server_identity(cert, key).unwrap_err().message();
    assert_eq!(message(&broken, &key), "Failed to parse TLS certificate");
    assert_eq!(message(&broken, &broken), "Failed to parse TLS certificate");
    assert_eq!(message(b"-----BEGIN CERTIFICATE-----\nAQID\n", &key), "Failed to parse TLS certificate");
    assert_eq!(message(&cert, &broken), "Failed to parse TLS key");
    assert_eq!(message(&cert, &cert), "No private key found");
    assert_eq!(message(&cert, b""), "No private key found");
}

#[test]
fn identities_are_made_of_both_parts() {
    let error = || std::io::Error::new(std::io::ErrorKind::Other, "broken");
    let key = || PrivateKey { form: KeyForm::Other, der: vec![2] };
    let identity = make_identity(Ok(vec![vec![1]]), Ok(Some(key()))).unwrap();
    assert_eq!((identity.certs, identity.key.der), (vec![vec![1]], vec![2]));
    assert!(matches!(
        make_identity(Err(error()), Err(error())),
        Err(IdentityError::BadCertificate(e)) if e.to_string() == "broken"
    ));
    assert!(matches!(make_identity(Ok(vec![]), Err(error())), Err(IdentityError::BadKey(_))));
    assert!(matches!(make_identity(Ok(vec![]), Ok(None)), Err(IdentityError::NoKey)));
}

#[test]
fn commands_wait_for_the_server() {
    assert!(matches!(wait_step(0, false), WaitStep::Try { pause_millis: 100 }));
    assert!(matches!(wait_step(49, false), WaitStep::Try { pause_millis: 100 }));
    assert!(matches!(wait_step(50, false), WaitStep::GoOn));
    assert!(matches!(wait_step(1, true), WaitStep::GoOn));
}

#[test]
fn environment_is_printed_without_a_command() {
    let mut a = args();
    assert!(a.prints_env());
    a.command_line = Some(vec!["cargo".to_string()]);
    assert!(!a.prints_env());
    a.command_line = None;
    a.no_proxy = true;
    assert!(!a.prints_env());
}

#[test]
fn web_answers_have_a_content_type() {
    assert_eq!(handle_api_download(Ok(vec![])).content_type(), "application/gzip");
    assert_eq!(handle_config("u", write_config).content_type(), "application/json");
    assert_eq!(
        handle_api_download(Err(RegistryError::NotFound)).content_type(),
        "text/plain; charset=utf-8"
    );
}
