use std::collections::HashMap;

use cargo_overlay_registry::publish_body::{
    finish_parse, metadata_section, parse_publish_body, write_publish_body, ParseError,
};
use cargo_overlay_registry::types::{default_true, PublishMetadata};

fn texts(list: &[&str]) -> Vec<String> {
    list.iter().map(|s| s.to_string()).collect()
}

fn some(s: &str) -> Option<String> {
    Some(s.to_string())
}

fn bare(name: &str, vers: &str) -> PublishMetadata {
    PublishMetadata {
        name: name.to_string(),
        vers: vers.to_string(),
        deps: vec![],
        features: HashMap::new(),
        authors: vec![],
        description: None,
        documentation: None,
        homepage: None,
        readme: None,
        readme_file: None,
        keywords: vec![],
        categories: vec![],
        license: None,
        license_file: None,
        repository: None,
        links: None,
        rust_version: None,
    }
}

fn complete(name: &str) -> PublishMetadata {
    let mut m = bare(name, "1.0.0");
    m.description = some("A crate");
    m.license = some("MIT");
    m.repository = some("https://example.com/repo");
    m
}

/// Reads the name and the version, and no more.
fn decode(json: &[u8]) -> Result<PublishMetadata, serde_json::Error> {
    let value: serde_json::Value = serde_json::from_slice(json)?;
    let field = |name: &str| value[name].as_str().unwrap_or("").to_string();
    Ok(bare(&field("name"), &field("vers")))
}

#[test]
fn test_parse_publish_body_too_short() {
    assert!(matches!(
        parse_publish_body(&[0, 0, 0, 0], decode),
        Err(ParseError::BodyTooShort)
    ));
}

#[test]
fn test_parse_publish_body_invalid_json() {
    // JSON length = 4, but contains invalid JSON
    let body = [
        4, 0, 0, 0, // JSON length: 4
        b'n', b'o', b'p', b'e', // Invalid JSON
        0, 0, 0, 0, // Crate length: 0
    ];
    assert!(matches!(
        parse_publish_body(&body, decode),
        Err(ParseError::InvalidJson(_))
    ));
}

#[test]
fn written_body_has_this_layout() {
    let body = write_publish_body(b"{}", b"abc");
    assert_eq!(body, [2, 0, 0, 0, b'{', b'}', 3, 0, 0, 0, b'a', b'b', b'c']);
}

#[test]
fn lengths_are_little_endian() {
    let body = write_publish_body(&[b' '; 258], &[7; 513]);
    assert_eq!(&body[..4], &[2, 1, 0, 0]);
    assert_eq!(&body[262..266], &[1, 2, 0, 0]);
    assert_eq!(body.len(), 4 + 258 + 4 + 513);
}

#[test]
fn written_body_is_read_back() {
    let json = br#"{"name":"demo","vers":"0.1.0"}"#;
    let mut body = write_publish_body(json, &[1, 2, 3]);
    assert_eq!(metadata_section(&body), Some(&json[..]));
    {
        let (m, data) = parse_publish_body(&body, decode).unwrap();
        assert_eq!(m.name, "demo");
        assert_eq!(m.vers, "0.1.0");
        assert_eq!(data, &[1, 2, 3]);
    }
    // What follows is not looked at.
    body.extend_from_slice(&[9, 9]);
    let (m, data) = parse_publish_body(&body, decode).unwrap();
    assert_eq!(m.name, "demo");
    assert_eq!(data, &[1, 2, 3]);
}

#[test]
fn empty_crate_file_is_read() {
    let body = write_publish_body(b"{}", b"");
    let (_, data) = parse_publish_body(&body, decode).unwrap();
    assert!(data.is_empty());
}

#[test]
fn body_that_ends_early_is_refused() {
    let body = write_publish_body(b"{}", &[1, 2, 3]);
    for n in 0..body.len() {
        assert!(matches!(
            parse_publish_body(&body[..n], decode),
            Err(ParseError::BodyTooShort)
        ));
    }
    assert!(parse_publish_body(&body, decode).is_ok());
}

#[test]
fn huge_lengths_are_refused() {
    let mut body = vec![255, 255, 255, 255, 0, 0, 0, 0];
    assert_eq!(metadata_section(&body), None);
    assert!(matches!(parse_publish_body(&body, decode), Err(ParseError::BodyTooShort)));
    body = vec![2, 0, 0, 0, b'{', b'}', 255, 255, 255, 255, 1];
    assert!(matches!(parse_publish_body(&body, decode), Err(ParseError::BodyTooShort)));
}

#[test]
fn bad_metadata_counts_before_a_missing_crate_file() {
    let body = [4, 0, 0, 0, b'n', b'o', b'p', b'e', 200, 0, 0, 0];
    assert!(matches!(parse_publish_body(&body, decode), Err(ParseError::InvalidJson(_))));
}

#[test]
fn parsing_goes_on_with_decoded_metadata() {
    let body = write_publish_body(b"{}", &[5, 6]);
    let (m, data) = finish_parse(&body, 2, Ok(bare("x", "1"))).unwrap();
    assert_eq!(m.name, "x");
    assert_eq!(data, &[5, 6]);
}

#[test]
fn parse_errors_tell_what_is_wrong() {
    assert_eq!(ParseError::BodyTooShort.to_string(), "request body too short");
    assert!(ParseError::BodyTooShort.source().is_none());
    let own = serde_json::from_slice::<serde_json::Value>(b"nope").unwrap_err();
    let said = own.to_string();
    let error = ParseError::InvalidJson(own);
    assert_eq!(error.to_string(), format!("invalid metadata: {}", said));
    assert_eq!(error.source().unwrap().to_string(), said);
}

#[test]
fn default_features_are_on() {
    assert!(default_true());
}

#[test]
fn complete_metadata_passes() {
    assert!(complete("demo").validate().is_empty());
    let mut m = complete("_private");
    m.license = None;
    m.license_file = some("LICENSE");
    m.repository = None;
    m.homepage = some("https://example.com");
    m.keywords = texts(&["a", "b-c", "d_e", "0x", "aaaaaaaaaaaaaaaaaaaa"]);
    m.categories = texts(&["1", "2", "3", "4", "5"]);
    assert!(m.validate().is_empty());
    m.homepage = None;
    m.documentation = some("https://docs.rs/x");
    assert!(m.validate().is_empty());
}

#[test]
fn missing_fields_are_told_in_order() {
    assert_eq!(
        bare("demo", "1.0.0").validate(),
        [
            "missing field `description`",
            "missing field `license` or `license-file` (at least one is required)",
            "missing field `documentation`, `homepage`, or `repository` (at least one is required)",
        ]
    );
}

#[test]
fn blank_fields_count_as_missing() {
    let mut m = complete("demo");
    m.description = some(" \t\n\u{a0}\u{3000}");
    m.license = some("");
    m.license_file = some("  ");
    m.repository = some("\u{2003}");
    assert_eq!(
        m.validate(),
        [
            "the `description` field must not be empty",
            "missing field `license` or `license-file` (at least one is required)",
            "missing field `documentation`, `homepage`, or `repository` (at least one is required)",
        ]
    );
}

#[test]
fn bad_keywords_are_told() {
    let mut m = complete("demo");
    m.keywords = texts(&["-x", "_x", "a b", "aaaaaaaaaaaaaaaaaaaaa", "", "-ééééééééééé"]);
    assert_eq!(
        m.validate(),
        [
            "too many keywords: 6 (max 5)",
            "keyword `-x` must start with a letter or number",
            "keyword `_x` must start with a letter or number",
            "keyword `a b` contains invalid characters (only ASCII alphanumeric, `-`, `_` allowed)",
            "keyword `aaaaaaaaaaaaaaaaaaaaa` is too long: 21 chars (max 20)",
            "keyword `-ééééééééééé` is too long: 23 chars (max 20)",
            "keyword `-ééééééééééé` contains invalid characters (only ASCII alphanumeric, `-`, `_` allowed)",
            "keyword `-ééééééééééé` must start with a letter or number",
        ]
    );
}

#[test]
fn too_many_categories_are_told() {
    let mut m = complete("demo");
    m.categories = vec![String::new(); 12];
    assert_eq!(m.validate(), ["too many categories: 12 (max 5)"]);
}

#[test]
fn bad_names_are_told() {
    assert_eq!(complete("").validate(), ["crate name cannot be empty"]);
    assert_eq!(
        complete(&"a".repeat(65)).validate(),
        ["crate name is too long: 65 chars (max 64)"]
    );
    assert!(complete(&"a".repeat(64)).validate().is_empty());
    assert_eq!(
        complete("1a").validate(),
        ["crate name must start with a letter or underscore"]
    );
    assert_eq!(
        complete("é").validate(),
        [
            "crate name must start with a letter or underscore",
            "crate name contains invalid characters (only ASCII alphanumeric, `-`, `_` allowed)",
        ]
    );
    assert_eq!(
        complete("a.b").validate(),
        ["crate name contains invalid characters (only ASCII alphanumeric, `-`, `_` allowed)"]
    );
}
