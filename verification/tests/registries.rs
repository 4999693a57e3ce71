use std::collections::HashMap;

use cargo_overlay_registry::endpoints::{internal_handle_download, internal_handle_index_lookup};
use cargo_overlay_registry::registry::checksum::checksum;
use cargo_overlay_registry::registry::index::{read_entries, write_entry};
use cargo_overlay_registry::registry::layers::{collect_hosts, count_temp_dirs};
use cargo_overlay_registry::registry::local::join_path;
use cargo_overlay_registry::registry::overlay::{merge, DownloadStep, LookupStep};
use cargo_overlay_registry::registry::remote::StatusStep;
use cargo_overlay_registry::registry::walk::{
    publish_layer, DownloadNext, DownloadTurn, DownloadWalk, LookupTurn, LookupWalk,
};
use cargo_overlay_registry::registry::ErrorSource;
use cargo_overlay_registry::routing::{handle_internal_request, Route};
use cargo_overlay_registry::types::{IndexEntry, PublishDependency, PublishMetadata};
use cargo_overlay_registry::{
    build_registry, AnyRegistry, LocalRegistry, OverlayRegistry, RegistryBuildOptions,
    RegistryError, RegistrySpec, RemoteRegistry,
};

type Layers = OverlayRegistry<LocalRegistry, RemoteRegistry>;

fn entry(name: &str, vers: &str, cksum: &str) -> IndexEntry {
    IndexEntry {
        name: name.to_string(),
        vers: vers.to_string(),
        deps: vec![],
        cksum: cksum.to_string(),
        features: HashMap::new(),
        features2: None,
        yanked: false,
        links: None,
        rust_version: None,
        v: None,
    }
}

/// Reads the name, the version and the checksum.
fn read(line: &str) -> Option<IndexEntry> {
    let value: serde_json::Value = serde_json::from_str(line).ok()?;
    let field = |name: &str| value[name].as_str().map(|s| s.to_string());
    Some(entry(&field("name")?, &field("vers")?, &field("cksum")?))
}

fn write(e: &IndexEntry) -> String {
    format!("{{\"name\":\"{}\",\"vers\":\"{}\",\"cksum\":\"{}\"}}", e.name, e.vers, e.cksum)
}

fn metadata(name: &str, vers: &str) -> PublishMetadata {
    PublishMetadata {
        name: name.to_string(),
        vers: vers.to_string(),
        deps: vec![],
        features: HashMap::new(),
        authors: vec![],
        description: Some("d".to_string()),
        documentation: None,
        homepage: Some("h".to_string()),
        readme: None,
        readme_file: None,
        keywords: vec![],
        categories: vec![],
        license: Some("MIT".to_string()),
        license_file: None,
        repository: None,
        links: Some("z".to_string()),
        rust_version: Some("1.70".to_string()),
    }
}

fn local(path: &str) -> LocalRegistry {
    LocalRegistry::new(path.to_string(), true)
}

fn remote() -> RemoteRegistry {
    RemoteRegistry::new("https://index.example".to_string(), "https://api.example".to_string())
}

fn io_error() -> std::io::Error {
    std::io::Error::new(std::io::ErrorKind::Other, "broken")
}

fn json_error() -> serde_json::Error {
    serde_json::from_str::<serde_json::Value>("nope").unwrap_err()
}

fn versions(entries: &[IndexEntry]) -> Vec<(&str, &str)> {
    entries.iter().map(|e| (e.vers.as_str(), e.cksum.as_str())).collect()
}

#[test]
fn checksums_are_sha256_in_hex() {
    assert_eq!(
        checksum(b""),
        "e3b0c44298fc1c149afbf4c8996fb92427ae41e4649b934ca495991b7852b855"
    );
    assert_eq!(
        checksum(b"abc"),
        "ba7816bf8f01cfea414140de5dae2223b00361a396177a9cb410ff61f20015ad"
    );
}

#[test]
fn paths_are_joined_as_on_unix() {
    assert_eq!(join_path("a", "b"), "a/b");
    assert_eq!(join_path("a/", "b"), "a/b");
    assert_eq!(join_path("", "b"), "b");
    assert_eq!(join_path("a", "/b"), "/b");
    assert_eq!(join_path("a", ""), "a/");
}

#[test]
fn crate_files_stand_in_the_root() {
    assert_eq!(local("/r").crate_path("demo", "1.0.0"), "/r/demo-1.0.0.crate");
    assert_ne!(local("/r").crate_path("demo", "1.0.0"), local("/r").crate_path("demo", "1.0.1"));
    assert_eq!(local("/r").index_dir(), "/r/index");
}

#[test]
fn crates_have_their_own_crate_files() {
    let r = local("/r");
    assert_ne!(r.crate_path("a", "1.0.0-b-2.0.0"), r.crate_path("a-1", "0.0-b-2.0.0"));
    assert_ne!(r.crate_path("a-b", "1.0.0"), r.crate_path("a", "1.0.0"));
    // A version that begins otherwise can be taken for part of the name.
    assert_eq!(r.crate_path("a", "1-0.1.0"), r.crate_path("a-1", "0.1.0"));
}

#[test]
fn checked_names_have_a_place() {
    for name in ["a", "_", "A-", "a_1", "Tokio"] {
        assert!(metadata(name, "1.0.0").validate().is_empty());
        assert!(local("/r").try_index_path(name).is_some());
    }
}

#[test]
fn published_crate_is_there() {
    let r = local("/r");
    let old = format!("{}\n", write(&entry("demo", "1.0.0", "old")));
    let plan = r.publish(metadata("demo", "1.0.0"), b"abc").unwrap();
    assert_eq!(plan.crate_path, r.crate_path("demo", "1.0.0"));
    let line = write(&plan.entry);
    let after = r.update_index(Some(Ok(old)), &plan.entry.vers, Ok(line), read).unwrap();
    let top = r.lookup(Some(Ok(after)), read).unwrap();
    assert_eq!(versions(&top), [("1.0.0", plan.checksum.as_str())]);
    // What lies below does not show through.
    let bottom = vec![entry("demo", "1.0.0", "upstream"), entry("demo", "0.9.0", "upstream")];
    assert_eq!(
        versions(&merge(top, bottom)),
        [("0.9.0", "upstream"), ("1.0.0", plan.checksum.as_str())]
    );
}

#[test]
fn index_files_are_spread_over_directories() {
    let r = local("/r");
    assert_eq!(r.index_path("A"), "/r/index/1/a");
    assert_eq!(r.index_path("Ab"), "/r/index/2/ab");
    assert_eq!(r.index_path("aBc"), "/r/index/3/a/abc");
    assert_eq!(r.index_path("Serde"), "/r/index/se/rd/serde");
    assert_eq!(r.try_index_path("serde"), Some("/r/index/se/rd/serde".to_string()));
    // Two bytes, one character; the lower case of it.
    assert_eq!(r.try_index_path("É"), Some("/r/index/2/é".to_string()));
    // The first two bytes of the lower case would cut a character.
    assert_eq!(r.try_index_path("aé12"), None);
    assert_eq!(r.try_index_path(""), None);
    assert_eq!(r.index_file("serde"), "/r/index/se/rd/serde");
}

#[test]
fn crates_of_other_names_have_other_index_files() {
    let r = local("/r");
    assert_ne!(r.index_path("ab"), r.index_path("ac"));
    assert_ne!(r.index_path("abcd"), r.index_path("abce"));
    assert_eq!(r.index_path("ABcd"), r.index_path("abCD"));
}

#[test]
fn index_lines_are_read() {
    let content = format!(
        "{}\n\nnot json\r\n{}\r\n",
        write(&entry("x", "1.0.0", "a")),
        write(&entry("x", "1.1.0", "b"))
    );
    assert_eq!(versions(&read_entries(&content, read)), [("1.0.0", "a"), ("1.1.0", "b")]);
    assert!(read_entries("", read).is_empty());
}

#[test]
fn written_entry_is_read_back() {
    let first = write_entry(None, "1.0.0", write(&entry("x", "1.0.0", "a")), read);
    assert_eq!(first, "{\"name\":\"x\",\"vers\":\"1.0.0\",\"cksum\":\"a\"}\n");
    let second = write_entry(Some(&first), "1.1.0", write(&entry("x", "1.1.0", "b")), read);
    assert_eq!(versions(&read_entries(&second, read)), [("1.0.0", "a"), ("1.1.0", "b")]);
    // The same version again: the old entry goes, the new one comes last.
    let third = write_entry(Some(&second), "1.0.0", write(&entry("x", "1.0.0", "c")), read);
    assert_eq!(versions(&read_entries(&third, read)), [("1.1.0", "b"), ("1.0.0", "c")]);
}

#[test]
fn lines_that_hold_no_entry_stay() {
    let after = write_entry(Some("# note\n\n"), "1.0.0", "{}".to_string(), read);
    assert_eq!(after, "# note\n\n{}\n");
}

#[test]
fn local_lookup_tells_what_the_index_file_holds() {
    let r = local("/r");
    assert!(r.lookup(None, read).unwrap().is_empty());
    let content = write(&entry("x", "1.0.0", "a"));
    assert_eq!(versions(&r.lookup(Some(Ok(content)), read).unwrap()), [("1.0.0", "a")]);
    assert!(matches!(
        r.lookup(Some(Err(io_error())), read),
        Err(RegistryError::Storage(_))
    ));
}

#[test]
fn local_download_gives_the_crate_file() {
    let r = local("/r");
    assert!(matches!(r.download(None), Err(RegistryError::NotFound)));
    assert_eq!(r.download(Some(Ok(vec![1, 2]))).unwrap(), [1, 2]);
    assert!(matches!(r.download(Some(Err(io_error()))), Err(RegistryError::Storage(_))));
}

#[test]
fn local_publish_makes_a_plan() {
    let mut m = metadata("demo", "1.0.0");
    m.features.insert("std".to_string(), vec!["alloc".to_string()]);
    m.deps.push(PublishDependency {
        name: "serde".to_string(),
        version_req: "^1".to_string(),
        features: vec!["derive".to_string()],
        optional: true,
        default_features: false,
        target: Some("cfg(unix)".to_string()),
        kind: Some("dev".to_string()),
        registry: Some("https://r.example".to_string()),
        explicit_name_in_toml: None,
    });
    m.deps.push(PublishDependency {
        name: "rand".to_string(),
        version_req: "*".to_string(),
        features: vec![],
        optional: false,
        default_features: true,
        target: None,
        kind: None,
        registry: None,
        explicit_name_in_toml: Some("random".to_string()),
    });
    let plan = local("/r").publish(m, b"abc").unwrap();
    let sum = "ba7816bf8f01cfea414140de5dae2223b00361a396177a9cb410ff61f20015ad";
    assert_eq!(plan.checksum, sum);
    assert_eq!(plan.crate_path, "/r/demo-1.0.0.crate");
    let e = plan.entry;
    assert_eq!((e.name.as_str(), e.vers.as_str(), e.cksum.as_str()), ("demo", "1.0.0", sum));
    assert_eq!(e.features["std"], ["alloc"]);
    assert!(e.features2.is_none() && !e.yanked && e.v.is_none());
    assert_eq!(e.links.as_deref(), Some("z"));
    assert_eq!(e.rust_version.as_deref(), Some("1.70"));
    assert_eq!(e.deps.len(), 2);
    let d = &e.deps[0];
    assert_eq!((d.name.as_str(), d.req.as_str(), d.package.as_deref()), ("serde", "^1", None));
    assert_eq!(d.features, ["derive"]);
    assert!(d.optional && !d.default_features);
    assert_eq!(d.target.as_deref(), Some("cfg(unix)"));
    assert_eq!(d.kind.as_deref(), Some("dev"));
    assert_eq!(d.registry.as_deref(), Some("https://r.example"));
    assert!(d.public.is_none() && d.artifact.is_none() && d.bindep_target.is_none());
    assert!(d.lib.is_none());
    let d = &e.deps[1];
    assert_eq!((d.name.as_str(), d.package.as_deref()), ("random", Some("rand")));
}

#[test]
fn local_publish_is_refused() {
    let read_only = LocalRegistry::read_only("/r".to_string());
    assert!(matches!(
        read_only.publish(metadata("demo", "1.0.0"), b""),
        Err(RegistryError::NotFound)
    ));
    let mut m = metadata("1", "1.0.0");
    m.description = None;
    match local("/r").publish(m, b"") {
        Err(RegistryError::ValidationFailed(errors)) => assert_eq!(
            errors,
            [
                "missing field `description`",
                "crate name must start with a letter or underscore",
            ]
        ),
        _ => panic!("published"),
    }
    let mut m = metadata("1", "1.0.0");
    m.description = None;
    let permissive = LocalRegistry::new("/r".to_string(), false);
    assert!(permissive.publish(m, b"").is_ok());
}

#[test]
fn index_is_updated_after_publishing() {
    let r = local("/r");
    let line = write(&entry("x", "2.0.0", "n"));
    assert_eq!(r.update_index(None, "2.0.0", Ok(line.clone()), read).unwrap(), format!("{}\n", line));
    let old = format!("{}\n", write(&entry("x", "1.0.0", "o")));
    assert_eq!(
        r.update_index(Some(Ok(old.clone())), "2.0.0", Ok(line.clone()), read).unwrap(),
        format!("{}{}\n", old, line)
    );
    assert!(matches!(
        r.update_index(Some(Err(io_error())), "2.0.0", Err(json_error()), read),
        Err(RegistryError::Storage(_))
    ));
    assert!(matches!(
        r.update_index(Some(Ok(old)), "2.0.0", Err(json_error()), read),
        Err(RegistryError::Serialization(_))
    ));
}

#[test]
fn merging_prefers_the_top_layer() {
    let top = vec![entry("x", "1.0.0", "top"), entry("x", "3.0.0", "top")];
    let bottom = vec![
        entry("x", "0.9.0", "bottom"),
        entry("x", "1.0.0", "bottom"),
        entry("x", "2.0.0", "bottom"),
    ];
    assert_eq!(
        versions(&merge(top, bottom)),
        [("0.9.0", "bottom"), ("2.0.0", "bottom"), ("1.0.0", "top"), ("3.0.0", "top")]
    );
}

#[test]
fn merging_keeps_the_last_of_equal_versions() {
    let top = vec![entry("x", "1", "a"), entry("x", "2", "b"), entry("x", "1", "c")];
    assert_eq!(versions(&merge(top, vec![])), [("2", "b"), ("1", "c")]);
    let bottom = vec![entry("x", "1", "a"), entry("x", "1", "b")];
    assert_eq!(versions(&merge(vec![], bottom)), [("1", "a"), ("1", "b")]);
}

#[test]
fn three_layers_merge_in_any_order() {
    let a = || vec![entry("x", "1", "a"), entry("x", "4", "a")];
    let b = || vec![entry("x", "2", "b"), entry("x", "1", "b")];
    let c = || vec![entry("x", "3", "c"), entry("x", "2", "c"), entry("x", "4", "c")];
    let left = merge(merge(a(), b()), c());
    let right = merge(a(), merge(b(), c()));
    assert_eq!(versions(&left), [("3", "c"), ("2", "b"), ("1", "a"), ("4", "a")]);
    assert_eq!(versions(&left), versions(&right));
}

#[test]
fn overlay_lookup_asks_both_layers() {
    match Layers::lookup_top(Ok(vec![entry("x", "1", "top")])) {
        LookupStep::AskBottom(top) => {
            let all = Layers::lookup_bottom(top, Ok(vec![entry("x", "0", "bottom")])).unwrap();
            assert_eq!(versions(&all), [("0", "bottom"), ("1", "top")]);
        }
        LookupStep::Done(_) => panic!("ended"),
    }
    assert!(matches!(
        Layers::lookup_top(Err(RegistryError::NotSupported)),
        LookupStep::Done(RegistryError::NotSupported)
    ));
    assert!(matches!(
        Layers::lookup_bottom(vec![], Err(RegistryError::NotFound)),
        Err(RegistryError::NotFound)
    ));
}

#[test]
fn overlay_download_falls_back() {
    assert!(matches!(
        Layers::download_top(Ok(vec![1])),
        DownloadStep::Done(Ok(data)) if data == [1]
    ));
    assert!(matches!(
        Layers::download_top(Err(RegistryError::NotFound)),
        DownloadStep::AskBottom
    ));
    assert!(matches!(
        Layers::download_top(Err(RegistryError::NotSupported)),
        DownloadStep::Done(Err(RegistryError::NotSupported))
    ));
}

#[test]
fn overlay_publishes_to_the_top() {
    let layers = OverlayRegistry::new(local("/top"), remote());
    assert_eq!(layers.publish_layer().path, "/top");
    assert_eq!(layers.clone().top.path, "/top");
    assert_eq!(layers.bottom.api_url, "https://api.example");
}

#[test]
fn remote_registries_are_asked_under_these_addresses() {
    let r = remote();
    assert_eq!(RemoteRegistry::index_path("A"), "/1/a");
    assert_eq!(RemoteRegistry::index_path("ab"), "/2/ab");
    assert_eq!(RemoteRegistry::index_path("abc"), "/3/a/abc");
    assert_eq!(RemoteRegistry::index_path("Tokio"), "/to/ki/tokio");
    assert_eq!(RemoteRegistry::index_path_for("tokio"), "/to/ki/tokio");
    assert_eq!(r.lookup_url("Tokio").as_deref(), Some("https://index.example/to/ki/tokio"));
    assert_eq!(r.lookup_url(""), None);
    assert_eq!(
        r.download_url("tokio", "1.0.0"),
        "https://api.example/api/v1/crates/tokio/1.0.0/download"
    );
}

#[test]
fn remote_lookup_follows_the_status() {
    let status = |code: u16, text: &str| RemoteRegistry::lookup_status(Ok((code, text.to_string())));
    assert!(matches!(status(200, "200 OK"), StatusStep::ReadBody));
    assert!(matches!(status(299, "299"), StatusStep::ReadBody));
    assert!(matches!(status(404, "404 Not Found"), StatusStep::Done(Ok(e)) if e.is_empty()));
    assert!(matches!(
        status(500, "500 Internal Server Error"),
        StatusStep::Done(Err(RegistryError::Network(m)))
            if m == "upstream returned 500 Internal Server Error"
    ));
    assert!(matches!(
        status(300, "300 Multiple Choices"),
        StatusStep::Done(Err(RegistryError::Network(_)))
    ));
    assert!(matches!(
        RemoteRegistry::lookup_status(Err("no route".to_string())),
        StatusStep::Done(Err(RegistryError::Network(m))) if m == "no route"
    ));
}

#[test]
fn remote_lookup_reads_the_body() {
    let body = format!("{}\n", write(&entry("x", "1.0.0", "a")));
    let entries = RemoteRegistry::lookup_body(Ok(body), read).unwrap();
    assert_eq!(versions(&entries), [("1.0.0", "a")]);
    assert!(matches!(
        RemoteRegistry::lookup_body(Err("cut off".to_string()), read),
        Err(RegistryError::Network(m)) if m == "cut off"
    ));
}

#[test]
fn remote_download_follows_the_status() {
    let status =
        |code: u16, text: &str| RemoteRegistry::download_status(Ok((code, text.to_string())));
    assert!(matches!(status(200, "200 OK"), StatusStep::ReadBody));
    assert!(matches!(
        status(404, "404 Not Found"),
        StatusStep::Done(Err(RegistryError::NotFound))
    ));
    assert!(matches!(
        status(403, "403 Forbidden"),
        StatusStep::Done(Err(RegistryError::Network(m))) if m == "upstream returned 403 Forbidden"
    ));
    assert!(matches!(
        RemoteRegistry::download_status(Err("no route".to_string())),
        StatusStep::Done(Err(RegistryError::Network(m))) if m == "no route"
    ));
    assert_eq!(RemoteRegistry::download_body(Ok(vec![3])).unwrap(), [3]);
    assert!(matches!(
        RemoteRegistry::download_body(Err("cut off".to_string())),
        Err(RegistryError::Network(m)) if m == "cut off"
    ));
}

#[test]
fn remote_publish_passes_the_crate_on() {
    assert!(matches!(
        remote().publish(Ok(vec![]), b"", None),
        Err(RegistryError::NotSupported)
    ));
    let r = RemoteRegistry::writable("https://i".to_string(), "https://a".to_string());
    let request = r.publish(Ok(b"{}".to_vec()), &[9], Some("token")).unwrap();
    assert_eq!(request.url, "https://a/api/v1/crates/new");
    assert_eq!(request.body, [2, 0, 0, 0, b'{', b'}', 1, 0, 0, 0, 9]);
    assert_eq!(request.authorization.as_deref(), Some("token"));
    assert_eq!(r.publish(Ok(vec![]), &[], None).unwrap().authorization, None);
    let said = json_error().to_string();
    assert!(matches!(
        r.publish(Err(json_error()), &[], None),
        Err(RegistryError::Network(m)) if m == format!("Failed to serialize metadata: {}", said)
    ));
}

#[test]
fn remote_publish_follows_the_status() {
    assert!(matches!(
        RemoteRegistry::publish_status(Ok((200, "200 OK".to_string()))),
        StatusStep::Done(Ok(sum)) if sum == "forwarded"
    ));
    assert!(matches!(
        RemoteRegistry::publish_status(Ok((404, "404 Not Found".to_string()))),
        StatusStep::ReadBody
    ));
    assert!(matches!(
        RemoteRegistry::publish_status(Err("no route".to_string())),
        StatusStep::Done(Err(RegistryError::Network(m))) if m == "no route"
    ));
    assert!(matches!(
        RemoteRegistry::publish_refused("403 Forbidden", Ok("go away".to_string())),
        RegistryError::Network(m) if m == "upstream returned 403 Forbidden: go away"
    ));
    assert!(matches!(
        RemoteRegistry::publish_refused("403 Forbidden", Err("cut off".to_string())),
        RegistryError::Network(m) if m == "upstream returned 403 Forbidden: "
    ));
}

#[test]
fn errors_tell_what_is_wrong() {
    assert_eq!(RegistryError::NotFound.to_string(), "not found");
    assert_eq!(RegistryError::NotSupported.to_string(), "operation not supported");
    assert_eq!(RegistryError::Network("x".to_string()).to_string(), "network error: x");
    let errors = vec!["a".to_string(), "b".to_string()];
    assert_eq!(RegistryError::ValidationFailed(errors).to_string(), "validation failed: a; b");
    assert_eq!(RegistryError::ValidationFailed(vec![]).to_string(), "validation failed: ");
    let storage = RegistryError::from(io_error());
    assert_eq!(storage.to_string(), "storage error: broken");
    assert!(matches!(storage.source(), Some(ErrorSource::Storage(e)) if e.to_string() == "broken"));
    let said = json_error().to_string();
    let json = RegistryError::from(json_error());
    assert_eq!(json.to_string(), format!("serialization error: {}", said));
    assert!(matches!(json.source(), Some(ErrorSource::Serialization(_))));
    assert!(RegistryError::NotFound.source().is_none());
}

#[test]
fn specs_are_read_from_the_command_line() {
    let told = |s: &str| RegistrySpec::from_str(s);
    for s in ["crates.io", "crates-io"] {
        assert!(matches!(
            told(s),
            Ok(RegistrySpec::Remote { api_url, index_url })
                if api_url == "https://crates.io" && index_url == "https://index.crates.io"
        ));
    }
    assert!(matches!(told("local"), Ok(RegistrySpec::Local { path: None })));
    assert!(matches!(
        told("local=/a=b"),
        Ok(RegistrySpec::Local { path: Some(p) }) if p == "/a=b"
    ));
    assert!(matches!(told("local="), Ok(RegistrySpec::Local { path: Some(p) }) if p.is_empty()));
    assert!(matches!(
        told("remote=https://one"),
        Ok(RegistrySpec::Remote { api_url, index_url })
            if api_url == "https://one" && index_url == "https://one"
    ));
    assert!(matches!(
        told("remote=https://api.com,https://index.com,x"),
        Ok(RegistrySpec::Remote { api_url, index_url })
            if api_url == "https://api.com" && index_url == "https://index.com,x"
    ));
    assert_eq!(told("remote").unwrap_err(), "remote registry requires a URL");
    assert_eq!(
        told("ftp=x").unwrap_err(),
        "unknown registry type 'ftp'. Use: local, remote, or crates.io"
    );
    assert_eq!(
        "".parse::<RegistrySpec>().unwrap_err(),
        "unknown registry type ''. Use: local, remote, or crates.io"
    );
}

#[test]
fn specs_are_shown_as_they_are_told() {
    for s in ["local", "local=/x", "crates.io", "remote=https://a", "remote=https://a,https://b"] {
        assert_eq!(RegistrySpec::from_str(s).unwrap().to_string(), s);
        assert_eq!(RegistrySpec::from_str(s).unwrap().clone().to_string(), s);
    }
    assert_eq!(RegistrySpec::crates_io().to_string(), "crates.io");
    assert_eq!(RegistrySpec::local_temp().to_string(), "local");
    assert_eq!(RegistrySpec::local("p").to_string(), "local=p");
    assert_eq!(RegistrySpec::remote("a", "b").to_string(), "remote=a,b");
    assert_eq!(RegistrySpec::remote("a", "a").to_string(), "remote=a");
}

#[test]
fn layers_are_built_top_down() {
    let specs = [
        RegistrySpec::local_temp(),
        RegistrySpec::local("/shared"),
        RegistrySpec::local_temp(),
        RegistrySpec::crates_io(),
    ];
    assert_eq!(count_temp_dirs(&specs), 2);
    let dirs = vec!["/tmp/low".to_string(), "/tmp/high".to_string()];
    let built = build_registry(&specs, &RegistryBuildOptions::default(), dirs);
    assert_eq!(built.temp_dirs, ["/tmp/low", "/tmp/high"]);
    assert_eq!(built.upstream_hosts, ["crates.io", "index.crates.io", "static.crates.io"]);
    assert_eq!(built.upstream_api(&specs), "https://crates.io");
    let mut layer = built.registry;
    for (path, open) in [("/tmp/high", true), ("/shared", false), ("/tmp/low", false)] {
        match layer {
            AnyRegistry::Overlay(o) => {
                match &o.top {
                    AnyRegistry::Local(l) => {
                        assert_eq!(l.path, path);
                        assert_eq!(l.read_only, !open);
                        assert_eq!(l.validate_metadata, open);
                    }
                    _ => panic!("not local"),
                }
                layer = o.bottom;
            }
            _ => panic!("no overlay"),
        }
    }
    match layer {
        AnyRegistry::Remote(r) => {
            assert_eq!(r.api_url, "https://crates.io");
            assert_eq!(r.index_url, "https://index.crates.io");
            assert!(!r.writable);
        }
        _ => panic!("not remote"),
    }
}

#[test]
fn registries_can_be_cloned() {
    let specs = [RegistrySpec::local("/r"), RegistrySpec::crates_io()];
    let built = build_registry(&specs, &RegistryBuildOptions::default(), vec![]);
    match built.registry.clone() {
        AnyRegistry::Overlay(o) => {
            assert!(matches!(&o.top, AnyRegistry::Local(l) if l.path == "/r" && !l.read_only));
            assert!(matches!(&o.bottom, AnyRegistry::Remote(r) if r.api_url == "https://crates.io"));
        }
        _ => panic!("no overlay"),
    }
}

#[test]
fn failing_layer_ends_a_lookup() {
    // A failure below is the answer, whatever the layer above has.
    let top = vec![entry("x", "1", "top")];
    match Layers::lookup_top(Ok(top)) {
        LookupStep::AskBottom(top) => assert!(matches!(
            Layers::lookup_bottom(top, Err(RegistryError::Network("down".to_string()))),
            Err(RegistryError::Network(m)) if m == "down"
        )),
        LookupStep::Done(_) => panic!("ended"),
    }
    // A failure on top is the answer, and the layer below is not asked.
    assert!(matches!(
        Layers::lookup_top(Err(RegistryError::Network("top".to_string()))),
        LookupStep::Done(RegistryError::Network(m)) if m == "top"
    ));
}

#[test]
fn published_crate_is_served_at_once() {
    let specs = [RegistrySpec::local("/r"), RegistrySpec::crates_io()];
    let built = build_registry(&specs, &RegistryBuildOptions::default(), vec![]);
    let top = match &built.registry {
        AnyRegistry::Overlay(o) => match &o.top {
            AnyRegistry::Local(l) => l,
            _ => panic!("not local"),
        },
        _ => panic!("no overlay"),
    };
    assert!(matches!(handle_internal_request("PUT", "/api/v1/crates/new"), Route::Publish));
    let plan = top.publish(metadata("Demo", "1.0.0"), b"abc").unwrap();
    let line = write(&plan.entry);
    let file = top.update_index(None, &plan.entry.vers, Ok(line), read).unwrap();
    match handle_internal_request("GET", &RemoteRegistry::index_path("Demo")) {
        Route::Lookup { crate_name } => assert_eq!(top.index_path(&crate_name), "/r/index/de/mo/demo"),
        _ => panic!("no lookup"),
    }
    let found = top.lookup(Some(Ok(file)), read).unwrap();
    let upstream = vec![entry("Demo", "1.0.0", "u"), entry("Demo", "2.0.0", "u")];
    let all = Layers::lookup_bottom(found, Ok(upstream));
    let response = internal_handle_index_lookup(all, |e| Some(write(e)));
    assert_eq!(response.status, 200);
    let body = String::from_utf8(response.body).unwrap();
    let served = read_entries(&body, read);
    assert_eq!(versions(&served), [("2.0.0", "u"), ("1.0.0", plan.checksum.as_str())]);
    assert_eq!(served[1].name, "Demo");
}

#[test]
fn options_decide_who_takes_crates() {
    let build = |read_only: bool, permissive_publishing: bool| {
        let options = RegistryBuildOptions { permissive_publishing, read_only };
        match build_registry(&[RegistrySpec::local("/r")], &options, vec![]).registry {
            AnyRegistry::Local(l) => (l.read_only, l.validate_metadata),
            _ => panic!("not local"),
        }
    };
    assert_eq!(build(false, false), (false, true));
    assert_eq!(build(false, true), (false, false));
    assert_eq!(build(true, false), (true, false));
    assert_eq!(build(true, true), (true, false));
}

#[test]
fn remote_on_top_takes_no_crates() {
    let specs = [RegistrySpec::remote("https://a.example", "https://a.example"), RegistrySpec::local("/r")];
    let built = build_registry(&specs, &RegistryBuildOptions::default(), vec![]);
    assert_eq!(built.upstream_hosts, ["a.example"]);
    match built.registry {
        AnyRegistry::Overlay(o) => {
            assert!(matches!(&o.top, AnyRegistry::Remote(r) if !r.writable));
            assert!(matches!(&o.bottom, AnyRegistry::Local(l) if !l.read_only));
        }
        _ => panic!("no overlay"),
    }
}

#[test]
fn hosts_come_from_the_addresses() {
    let specs = [
        RegistrySpec::remote("https://B.example:8443/path", "not a url"),
        RegistrySpec::remote("data:text/plain,x", "https://user@c.example/"),
    ];
    let built = build_registry(&specs, &RegistryBuildOptions::default(), vec![]);
    assert_eq!(built.upstream_hosts, ["c.example", "b.example"]);
    assert_eq!(built.upstream_api(&specs), "data:text/plain,x");
    assert_eq!(built.upstream_api(&[RegistrySpec::local_temp()]), "https://crates.io");
}

#[test]
fn hosts_are_intercepted_once() {
    let some = |h: &str| Some(h.to_string());
    assert_eq!(
        collect_hosts(vec![some("a"), None, some("b"), some("a")]),
        ["a", "b"]
    );
    assert_eq!(
        collect_hosts(vec![some("index.crates.io")]),
        ["index.crates.io", "static.crates.io"]
    );
    assert_eq!(
        collect_hosts(vec![some("static.crates.io"), some("crates.io")]),
        ["static.crates.io", "crates.io"]
    );
    assert!(collect_hosts(vec![None]).is_empty());
}

fn two_over_one() -> AnyRegistry {
    let layer = |path: &str| AnyRegistry::Local(local(path));
    let upper = OverlayRegistry::new(layer("/a"), layer("/b"));
    AnyRegistry::Overlay(Box::new(OverlayRegistry::new(
        AnyRegistry::Overlay(Box::new(upper)),
        layer("/c"),
    )))
}

fn path_of(layer: &AnyRegistry) -> &str {
    match layer {
        AnyRegistry::Local(l) => &l.path,
        _ => panic!("not local"),
    }
}

/// Looks up in all layers, and tells which were asked.
fn walk_lookup(
    registry: &AnyRegistry,
    ask: impl Fn(&str) -> Result<Vec<IndexEntry>, RegistryError>,
) -> (Vec<String>, Result<Vec<IndexEntry>, RegistryError>) {
    let mut asked = vec![];
    let mut walk = LookupWalk::new(registry);
    loop {
        match walk.next() {
            LookupTurn::Done(entries) => return (asked, Ok(entries)),
            LookupTurn::Ask { layer, walk: rest } => {
                asked.push(path_of(layer).to_string());
                match rest.answered(ask(path_of(layer))) {
                    Ok(rest) => walk = rest,
                    Err(e) => return (asked, Err(e)),
                }
            }
        }
    }
}

#[test]
fn lookups_ask_every_layer_from_the_top() {
    let registry = two_over_one();
    let (asked, entries) = walk_lookup(&registry, |path| {
        Ok(match path {
            "/a" => vec![entry("x", "1", "a")],
            "/b" => vec![entry("x", "1", "b"), entry("x", "2", "b")],
            _ => vec![entry("x", "2", "c"), entry("x", "3", "c")],
        })
    });
    assert_eq!(asked, ["/a", "/b", "/c"]);
    assert_eq!(versions(&entries.unwrap()), [("3", "c"), ("2", "b"), ("1", "a")]);
    let (asked, entries) = walk_lookup(&registry, |path| match path {
        "/b" => Err(RegistryError::Network("down".to_string())),
        _ => Ok(vec![entry("x", "1", "a")]),
    });
    assert_eq!(asked, ["/a", "/b"]);
    assert!(matches!(entries, Err(RegistryError::Network(m)) if m == "down"));
    let single = AnyRegistry::Local(local("/a"));
    let (asked, entries) = walk_lookup(&single, |_| Ok(vec![entry("x", "1", "a"), entry("x", "1", "b")]));
    assert_eq!(asked, ["/a"]);
    assert_eq!(versions(&entries.unwrap()), [("1", "a"), ("1", "b")]);
}

#[test]
fn downloads_ask_until_the_crate_is_found() {
    let registry = two_over_one();
    let run = |ask: &dyn Fn(&str) -> Result<Vec<u8>, RegistryError>| {
        let mut asked = vec![];
        let mut walk = DownloadWalk::new(&registry);
        loop {
            match walk.next() {
                DownloadTurn::NotFound => return (asked, Err(RegistryError::NotFound)),
                DownloadTurn::Ask { layer, walk: rest } => {
                    asked.push(path_of(layer).to_string());
                    match rest.answered(ask(path_of(layer))) {
                        DownloadNext::GoOn(rest) => walk = rest,
                        DownloadNext::Done(answer) => return (asked, answer),
                    }
                }
            }
        }
    };
    let (asked, data) = run(&|path| if path == "/b" { Ok(vec![2]) } else { Err(RegistryError::NotFound) });
    assert_eq!(asked, ["/a", "/b"]);
    assert_eq!(data.unwrap(), [2]);
    let (asked, data) = run(&|_| Err(RegistryError::NotFound));
    assert_eq!(asked, ["/a", "/b", "/c"]);
    assert!(matches!(data, Err(RegistryError::NotFound)));
    let (asked, data) = run(&|_| Err(RegistryError::NotSupported));
    assert_eq!(asked, ["/a"]);
    assert!(matches!(data, Err(RegistryError::NotSupported)));
}

#[test]
fn publishing_goes_to_the_topmost_layer() {
    assert_eq!(path_of(publish_layer(&two_over_one())), "/a");
    let single = AnyRegistry::Local(local("/z"));
    assert_eq!(path_of(publish_layer(&single)), "/z");
}

#[test]
fn published_crate_file_is_served() {
    let registry = AnyRegistry::Overlay(Box::new(OverlayRegistry::new(
        AnyRegistry::Local(local("/r")),
        AnyRegistry::Remote(remote()),
    )));
    let top = match publish_layer(&registry) {
        AnyRegistry::Local(l) => l,
        _ => panic!("not local"),
    };
    let plan = top.publish(metadata("demo", "1.0.0"), b"abc").unwrap();
    match handle_internal_request("GET", "/api/v1/crates/demo/1.0.0/download") {
        Route::Download { crate_name, version } => {
            assert_eq!(top.crate_path(&crate_name, &version), plan.crate_path)
        }
        _ => panic!("no download"),
    }
    match DownloadWalk::new(&registry).next() {
        DownloadTurn::Ask { layer, walk } => {
            assert_eq!(path_of(layer), "/r");
            match walk.answered(top.download(Some(Ok(b"abc".to_vec())))) {
                DownloadNext::Done(answer) => {
                    let response = internal_handle_download(answer);
                    assert_eq!(response.status, 200);
                    assert_eq!(response.body, b"abc");
                }
                DownloadNext::GoOn(_) => panic!("not found"),
            }
        }
        DownloadTurn::NotFound => panic!("nothing asked"),
    }
}
