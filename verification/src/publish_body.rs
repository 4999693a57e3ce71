//! The body of a publish request:
//!
//! - 4 bytes: the length of the metadata, little-endian
//! - the metadata, in JSON
//! - 4 bytes: the length of the crate file, little-endian
//! - the crate file
//!
//! What follows is not looked at.

use vstd::prelude::*;
use vstd::slice::slice_subrange;

use crate::types::PublishMetadata;

verus! {

/// Why a publish request could not be read.
#[derive(Debug)]
pub enum ParseError {
    /// The body is shorter than it says it is.
    BodyTooShort,
    /// The metadata is not what it should be.
    InvalidJson(serde_json::Error),
}

impl ParseError {
    /// Whether `s` is what the error says. What the JSON error says of itself is what its
    /// own `to_string` gives.
    pub open spec fn says(self, s: Seq<char>) -> bool {
        match self {
            ParseError::BodyTooShort => s == "request body too short"@,
            ParseError::InvalidJson(e) => exists|own: String| #[trigger]
                vstd::string::to_string_from_display_ensures(&e, own) && s
                    == "invalid metadata: "@ + own@,
        }
    }

    /// Whether the error always says the same. Of an outside error that is not known.
    pub open spec fn is_steady(self) -> bool {
        match self {
            ParseError::BodyTooShort => true,
            ParseError::InvalidJson(e) => forall|a: String, b: String|
                #[trigger] vstd::string::to_string_from_display_ensures(&e, a)
                    && #[trigger] vstd::string::to_string_from_display_ensures(&e, b) ==> a@ == b@,
        }
    }

    /// What the error says.
    pub fn to_string(&self) -> (s: String)
        ensures
            self.says(s@),
    {
        match self {
            ParseError::BodyTooShort => String::from_str("request body too short"),
            ParseError::InvalidJson(e) => {
                let own = e.to_string();
                String::from_str("invalid metadata: ").concat(own.as_str())
            },
        }
    }

    /// The JSON error behind this one, if there is one.
    pub fn source(&self) -> (source: Option<&serde_json::Error>)
        ensures
            source == match *self {
                ParseError::BodyTooShort => None,
                ParseError::InvalidJson(e) => Some(&e),
            },
    {
        match self {
            ParseError::BodyTooShort => None,
            ParseError::InvalidJson(e) => Some(e),
        }
    }
}

/// A number in four bytes, the lowest first.
pub open spec fn le4(n: u32) -> Seq<u8> {
    seq![
        (n % 256) as u8,
        (n / 256 % 256) as u8,
        (n / 65536 % 256) as u8,
        (n / 16777216 % 256) as u8,
    ]
}

/// The number in the four bytes from `at` on.
pub open spec fn number_at(body: Seq<u8>, at: int) -> int {
    body[at] + 256 * body[at + 1] + 65536 * body[at + 2] + 16777216 * body[at + 3]
}

/// The metadata, where the body is long enough for it and both lengths.
pub open spec fn metadata_of(body: Seq<u8>) -> Option<Seq<u8>> {
    if body.len() >= 8 && body.len() >= 4 + number_at(body, 0) + 4 {
        Some(body.subrange(4, 4 + number_at(body, 0)))
    } else {
        None
    }
}

/// The crate file, where the body is long enough for it; `n` is the length of the
/// metadata.
pub open spec fn crate_file_of(body: Seq<u8>, n: int) -> Option<Seq<u8>> {
    let at = 4 + n + 4;
    let m = number_at(body, 4 + n);
    if body.len() >= at + m {
        Some(body.subrange(at, at + m))
    } else {
        None
    }
}

/// The body of a publish request with this metadata and this crate file. A length that
/// four bytes cannot hold loses its higher bits.
pub open spec fn framed(json: Seq<u8>, data: Seq<u8>) -> Seq<u8> {
    le4(json.len() as u32) + json + le4(data.len() as u32) + data
}

/// What a body comes to, given what its metadata was decoded to.
pub open spec fn is_parsed(
    body: Seq<u8>,
    n: int,
    decoded: Result<PublishMetadata, serde_json::Error>,
    parsed: Result<(PublishMetadata, &[u8]), ParseError>,
) -> bool {
    match decoded {
        Err(e) => parsed == Err::<(PublishMetadata, &[u8]), ParseError>(ParseError::InvalidJson(e)),
        Ok(metadata) => match crate_file_of(body, n) {
            None => parsed == Err::<(PublishMetadata, &[u8]), ParseError>(ParseError::BodyTooShort),
            Some(data) => parsed matches Ok((m, d)) && m == metadata && d@ == data,
        },
    }
}

/// What reading a body may come to, where `decode` makes metadata out of JSON.
pub open spec fn may_parse<D: FnOnce(&[u8]) -> Result<PublishMetadata, serde_json::Error>>(
    body: Seq<u8>,
    decode: D,
    parsed: Result<(PublishMetadata, &[u8]), ParseError>,
) -> bool {
    match metadata_of(body) {
        None => parsed == Err::<(PublishMetadata, &[u8]), ParseError>(ParseError::BodyTooShort),
        Some(expected) => exists|json: &[u8], decoded|
            json@ == expected && #[trigger] call_ensures(decode, (json,), decoded) && is_parsed(
                body,
                expected.len() as int,
                decoded,
                parsed,
            ),
    }
}

/// Reads the number in the four bytes from `at` on.
fn read_number(body: &[u8], at: usize) -> (n: u32)
    requires
        at + 4 <= body@.len(),
    ensures
        n == number_at(body@, at as int),
{
    let b0 = body[at] as u32;
    let b1 = body[at + 1] as u32;
    let b2 = body[at + 2] as u32;
    let b3 = body[at + 3] as u32;
    b0 + 256 * b1 + 65536 * b2 + 16777216 * b3
}

/// Finds the metadata in a body.
pub fn metadata_section(body: &[u8]) -> (json: Option<&[u8]>)
    ensures
        match json {
            Some(j) => metadata_of(body@) == Some(j@),
            None => metadata_of(body@) is None,
        },
{
    if body.len() < 8 {
        return None;
    }
    let n = read_number(body, 0) as usize;
    if body.len() - 8 < n {
        return None;
    }
    Some(slice_subrange(body, 4, 4 + n))
}

/// Goes on reading a body whose metadata has `n` bytes and was decoded to `decoded`.
pub fn finish_parse<'a>(
    body: &'a [u8],
    n: usize,
    decoded: Result<PublishMetadata, serde_json::Error>,
) -> (parsed: Result<(PublishMetadata, &'a [u8]), ParseError>)
    requires
        4 + n + 4 <= body@.len(),
    ensures
        is_parsed(body@, n as int, decoded, parsed),
{
    let len = body.len();
    let metadata = match decoded {
        Ok(metadata) => metadata,
        Err(e) => return Err(ParseError::InvalidJson(e)),
    };
    let m = read_number(body, 4 + n) as usize;
    let at = 4 + n + 4;
    if len - at < m {
        return Err(ParseError::BodyTooShort);
    }
    Ok((metadata, slice_subrange(body, at, at + m)))
}

/// Reads the body of a publish request. `decode` makes metadata out of JSON; it is asked
/// once the metadata is there, and before the crate file is looked for.
pub fn parse_publish_body<
    'a,
    D: FnOnce(&[u8]) -> Result<PublishMetadata, serde_json::Error>,
>(body: &'a [u8], decode: D) -> (parsed: Result<(PublishMetadata, &'a [u8]), ParseError>)
    requires
        forall|json: &[u8]| #[trigger] call_requires(decode, (json,)),
    ensures
        may_parse(body@, decode, parsed),
{
    match metadata_section(body) {
        None => Err(ParseError::BodyTooShort),
        Some(json) => {
            let n = json.len();
            let decoded = decode(json);
            finish_parse(body, n, decoded)
        },
    }
}

/// Appends a number in four bytes.
fn push_number(body: &mut Vec<u8>, n: u32)
    ensures
        final(body)@ == old(body)@ + le4(n),
{
    body.push((n % 256) as u8);
    body.push((n / 256 % 256) as u8);
    body.push((n / 65536 % 256) as u8);
    body.push((n / 16777216 % 256) as u8);
    assert(body@ =~= old(body)@ + le4(n));
}

/// Appends bytes.
fn push_bytes(body: &mut Vec<u8>, bytes: &[u8])
    ensures
        final(body)@ == old(body)@ + bytes@,
{
    let mut i: usize = 0;
    assert(body@ =~= old(body)@ + bytes@.take(0));
    while i < bytes.len()
        invariant
            i <= bytes@.len(),
            body@ == old(body)@ + bytes@.take(i as int),
        decreases bytes@.len() - i,
    {
        body.push(bytes[i]);
        assert(body@ =~= old(body)@ + bytes@.take(i + 1));
        i = i + 1;
    }
    assert(bytes@.take(bytes@.len() as int) =~= bytes@);
}

/// Writes the body of a publish request.
pub fn write_publish_body(json: &[u8], crate_data: &[u8]) -> (body: Vec<u8>)
    ensures
        body@ == framed(json@, crate_data@),
{
    let mut body: Vec<u8> = Vec::new();
    push_number(&mut body, json.len() as u32);
    push_bytes(&mut body, json);
    push_number(&mut body, crate_data.len() as u32);
    push_bytes(&mut body, crate_data);
    assert(body@ =~= framed(json@, crate_data@));
    body
}

/// What is sent arrives: a body written for some metadata and a crate file is read back
/// as these, whatever follows it. Both are shorter than four bytes can count.
pub proof fn law_written_body_is_read(json: Seq<u8>, data: Seq<u8>, rest: Seq<u8>)
    requires
        json.len() <= u32::MAX,
        data.len() <= u32::MAX,
    ensures
        metadata_of(framed(json, data) + rest) == Some(json),
        crate_file_of(framed(json, data) + rest, json.len() as int) == Some(data),
{
    let body = framed(json, data) + rest;
    let n = json.len() as int;
    lemma_number_at(body, 0, json.len() as u32);
    lemma_number_at(body, 4 + n, data.len() as u32);
    assert(body.subrange(4, 4 + n) =~= json);
    assert(body.subrange(4 + n + 4, 4 + n + 4 + data.len()) =~= data);
}

/// What is passed on is taken in: a body written for some metadata and a crate file, with
/// nothing behind it, is parsed to both, where `decode` makes `m` out of the metadata.
pub proof fn law_sent_body_is_parsed<
    D: FnOnce(&[u8]) -> Result<PublishMetadata, serde_json::Error>,
>(
    json: Seq<u8>,
    data: Seq<u8>,
    decode: D,
    m: PublishMetadata,
    parsed: Result<(PublishMetadata, &[u8]), ParseError>,
)
    requires
        json.len() <= u32::MAX,
        data.len() <= u32::MAX,
        forall|j: &[u8], decoded: Result<PublishMetadata, serde_json::Error>|
            j@ == json && #[trigger] call_ensures(decode, (j,), decoded) ==> decoded == Ok::<
                PublishMetadata,
                serde_json::Error,
            >(m),
        may_parse(framed(json, data), decode, parsed),
    ensures
        parsed matches Ok((metadata, crate_data)) && metadata == m && crate_data@ == data,
        framed(json, data).len() == 4 + json.len() + 4 + data.len(),
{
    let body = framed(json, data);
    assert(body + Seq::<u8>::empty() =~= body);
    law_written_body_is_read(json, data, Seq::empty());
    lemma_parsed(body, json, data, decode, m, parsed);
}

/// A body whose parts are known is parsed to them.
proof fn lemma_parsed<D: FnOnce(&[u8]) -> Result<PublishMetadata, serde_json::Error>>(
    body: Seq<u8>,
    json: Seq<u8>,
    data: Seq<u8>,
    decode: D,
    m: PublishMetadata,
    parsed: Result<(PublishMetadata, &[u8]), ParseError>,
)
    requires
        metadata_of(body) == Some(json),
        crate_file_of(body, json.len() as int) == Some(data),
        forall|j: &[u8], decoded: Result<PublishMetadata, serde_json::Error>|
            j@ == json && #[trigger] call_ensures(decode, (j,), decoded) ==> decoded == Ok::<
                PublishMetadata,
                serde_json::Error,
            >(m),
        may_parse(body, decode, parsed),
    ensures
        parsed matches Ok((metadata, crate_data)) && metadata == m && crate_data@ == data,
{
    let (j, decoded) = choose|j: &[u8], decoded: Result<PublishMetadata, serde_json::Error>|
        j@ == json && #[trigger] call_ensures(decode, (j,), decoded) && is_parsed(
            body,
            json.len() as int,
            decoded,
            parsed,
        );
    assert(decoded == Ok::<PublishMetadata, serde_json::Error>(m));
}

proof fn lemma_number_at(body: Seq<u8>, at: int, n: u32)
    requires
        0 <= at,
        at + 4 <= body.len(),
        body[at] == le4(n)[0],
        body[at + 1] == le4(n)[1],
        body[at + 2] == le4(n)[2],
        body[at + 3] == le4(n)[3],
    ensures
        number_at(body, at) == n,
{
    assert(n % 256 + 256 * (n / 256 % 256) + 65536 * (n / 65536 % 256) + 16777216 * (n / 16777216
        % 256) == n);
}

} // verus!
