//! Publishing: the body of a request, the metadata in it, the checksum and the index entry.

use vstd::arithmetic::power::pow;
use vstd::prelude::*;
use vstd::utf8::*;

use crate::laws::texts;
use crate::outside;
use crate::publish_body;
use crate::publish_body::ParseError;
use crate::registry::checksum;
use crate::registry::local;
use crate::text;
use crate::types;
use crate::types::{IndexEntry, PublishMetadata};

verus! {

/// The number that four bytes hold, each worth more by 256 than the one before.
pub open spec fn little_endian(bytes: Seq<u8>) -> int {
    bytes[0] * pow(256, 0) + bytes[1] * pow(256, 1) + bytes[2] * pow(256, 2) + bytes[3] * pow(
        256,
        3,
    )
}

proof fn lemma_powers_of_256()
    ensures
        pow(256, 0) == 1,
        pow(256, 1) == 256,
        pow(256, 2) == 65536,
        pow(256, 3) == 16777216,
{
    reveal(pow);
    assert(pow(256, 0) == 1);
    assert(pow(256, 1) == 256 * pow(256, 0));
    assert(pow(256, 2) == 256 * pow(256, 1));
    assert(pow(256, 3) == 256 * pow(256, 2));
}

/// Lengths are little-endian: the byte `k` places on is worth 256 to the power of `k`, when
/// a number is read and when one is written.
pub proof fn law_lengths_are_little_endian(body: Seq<u8>, at: int, n: u32)
    requires
        0 <= at,
        at + 4 <= body.len(),
    ensures
        publish_body::number_at(body, at) == body[at] * pow(256, 0) + body[at + 1] * pow(256, 1)
            + body[at + 2] * pow(256, 2) + body[at + 3] * pow(256, 3),
        publish_body::le4(n).len() == 4,
        forall|k: int|
            0 <= k < 4 ==> #[trigger] publish_body::le4(n)[k] as int == n as int / pow(
                256,
                k as nat,
            ) % 256,
{
    lemma_powers_of_256();
    let four = publish_body::le4(n);
    assert(four[0] as int == n as int / pow(256, 0) % 256);
    assert(four[1] as int == n as int / pow(256, 1) % 256);
    assert(four[2] as int == n as int / pow(256, 2) % 256);
    assert(four[3] as int == n as int / pow(256, 3) % 256);
}

/// A body is read by place. The metadata has the length that the first four bytes hold and
/// stands behind them; the crate file has the length that the next four bytes hold and
/// stands behind those. What is not there in full is not found.
pub proof fn law_bodies_are_read_by_place(body: Seq<u8>, n: int)
    ensures
        body.len() < 8 ==> publish_body::metadata_of(body) is None,
        body.len() >= 8 && body.len() < 8 + little_endian(body.take(4))
            ==> publish_body::metadata_of(body) is None,
        body.len() >= 8 && body.len() >= 8 + little_endian(body.take(4)) ==> {
            let found = publish_body::metadata_of(body);
            &&& found is Some
            &&& found->0.len() == little_endian(body.take(4))
            &&& forall|i: int| 0 <= i < found->0.len() ==> #[trigger] found->0[i] == body[4 + i]
        },
        0 <= n && 8 + n <= body.len() ==> {
            let size = little_endian(body.subrange(4 + n, 8 + n));
            let found = publish_body::crate_file_of(body, n);
            &&& found is Some <==> 8 + n + size <= body.len()
            &&& found is Some ==> found->0.len() == size && forall|i: int|
                0 <= i < size ==> #[trigger] found->0[i] == body[8 + n + i]
        },
{
    lemma_powers_of_256();
}

/// A body is written by place: both lengths, each in front of what it counts, and nothing
/// else.
pub proof fn law_bodies_are_written_by_place(json: Seq<u8>, data: Seq<u8>)
    requires
        json.len() <= u32::MAX,
        data.len() <= u32::MAX,
    ensures
        ({
            let body = publish_body::framed(json, data);
            let n = json.len() as int;
            &&& body.len() == 8 + n + data.len()
            &&& little_endian(body.take(4)) == n
            &&& little_endian(body.subrange(4 + n, 8 + n)) == data.len()
            &&& forall|i: int| 0 <= i < n ==> #[trigger] body[4 + i] == json[i]
            &&& forall|i: int| 0 <= i < data.len() ==> #[trigger] body[8 + n + i] == data[i]
        }),
{
    let body = publish_body::framed(json, data);
    let n = json.len() as int;
    let a = publish_body::le4(json.len() as u32);
    let b = publish_body::le4(data.len() as u32);
    lemma_written_number(json.len() as u32);
    lemma_written_number(data.len() as u32);
    assert(body == a + json + b + data);
    lemma_places(a, json, b, data);
}

/// Where the parts stand in what is put together of four, the first and the third of four
/// bytes.
proof fn lemma_places(a: Seq<u8>, json: Seq<u8>, b: Seq<u8>, data: Seq<u8>)
    requires
        a.len() == 4,
        b.len() == 4,
    ensures
        ({
            let body = a + json + b + data;
            let n = json.len() as int;
            &&& body.len() == 8 + n + data.len()
            &&& body.take(4) == a
            &&& body.subrange(4 + n, 8 + n) == b
            &&& forall|i: int| 0 <= i < n ==> #[trigger] body[4 + i] == json[i]
            &&& forall|i: int| 0 <= i < data.len() ==> #[trigger] body[8 + n + i] == data[i]
        }),
{
    let body = a + json + b + data;
    let n = json.len() as int;
    assert(body.take(4) =~= a);
    assert(body.subrange(4 + n, 8 + n) =~= b);
}

/// A number that is written in four bytes is read from them.
proof fn lemma_written_number(n: u32)
    ensures
        publish_body::le4(n).len() == 4,
        little_endian(publish_body::le4(n)) == n,
{
    lemma_powers_of_256();
    assert(n % 256 + 256 * (n / 256 % 256) + 65536 * (n / 65536 % 256) + 16777216 * (n / 16777216
        % 256) == n);
}

/// What a publish request comes to, by the length of its body. Too short for what it says
/// it holds, it is refused as too short. Otherwise the decoder decides on the metadata alone,
/// before the crate file is looked for: its error refuses the request, and its metadata goes along with the
/// crate file.
pub proof fn law_requests_are_parsed_by_length<
    D: FnOnce(&[u8]) -> Result<PublishMetadata, serde_json::Error>,
>(
    body: Seq<u8>,
    decode: D,
    decoded: Result<PublishMetadata, serde_json::Error>,
    parsed: Result<(PublishMetadata, &[u8]), ParseError>,
)
    requires
        publish_body::may_parse(body, decode, parsed),
        forall|j: &[u8], d: Result<PublishMetadata, serde_json::Error>| #[trigger]
            call_ensures(decode, (j,), d) && j@ == body.subrange(
                4,
                4 + little_endian(body.take(4)),
            ) ==> d == decoded,
    ensures
        ({
            let n = little_endian(body.take(4));
            let m = little_endian(body.subrange(4 + n, 8 + n));
            if body.len() < 8 || body.len() < 8 + n {
                parsed matches Err(ParseError::BodyTooShort)
            } else {
                match decoded {
                    Err(e) => parsed matches Err(ParseError::InvalidJson(f)) && e == f,
                    Ok(metadata) => if body.len() < 8 + n + m {
                        parsed matches Err(ParseError::BodyTooShort)
                    } else {
                        parsed matches Ok((got, data)) && got == metadata && data@
                            == body.subrange(8 + n, 8 + n + m)
                    },
                }
            }
        }),
{
    lemma_powers_of_256();
    let n = little_endian(body.take(4));
    if body.len() >= 8 && body.len() >= 8 + n {
        let json = body.subrange(4, 4 + n);
        assert(publish_body::metadata_of(body) == Some(json));
        let (j, d) = choose|j: &[u8], d: Result<PublishMetadata, serde_json::Error>|
            j@ == json && #[trigger] call_ensures(decode, (j,), d) && publish_body::is_parsed(
                body,
                json.len() as int,
                d,
                parsed,
            );
        assert(d == decoded);
        assert(publish_body::number_at(body, 4 + n) == little_endian(
            body.subrange(4 + n, 8 + n),
        ));
        if let Ok(metadata) = decoded {
            law_bodies_are_read_by_place(body, n);
        }
    }
}

/// What the errors of parsing say.
pub proof fn law_parse_errors_speak(e: serde_json::Error, own: String, s: Seq<char>)
    ensures
        ParseError::BodyTooShort.says(s) <==> s == "request body too short"@,
        vstd::string::to_string_from_display_ensures(&e, own) ==> ParseError::InvalidJson(e).says(
            "invalid metadata: "@ + own@,
        ),
        ParseError::InvalidJson(e).says(s) ==> "invalid metadata: "@.is_prefix_of(s),
{
    assert("invalid metadata: "@.is_prefix_of("invalid metadata: "@ + own@)) by {
        assert(("invalid metadata: "@ + own@).subrange(0, "invalid metadata: "@.len() as int)
            =~= "invalid metadata: "@);
    }
    if ParseError::InvalidJson(e).says(s) {
        let o = choose|o: String| #[trigger]
            vstd::string::to_string_from_display_ensures(&e, o) && s == "invalid metadata: "@ + o@;
        assert(s.subrange(0, "invalid metadata: "@.len() as int) =~= "invalid metadata: "@);
    }
}

/// What a hexadecimal digit is worth; nothing else is one.
pub open spec fn hex_worth(c: char) -> Option<int> {
    let code = c as int;
    if 0x30 <= code <= 0x39 {
        Some(code - 0x30)
    } else if 0x61 <= code <= 0x66 {
        Some(code - 0x61 + 10)
    } else {
        None
    }
}

/// A checksum is the digest of the whole crate file, byte by byte in two lower-case
/// hexadecimal digits, the higher first.
pub proof fn law_checksums_spell_the_digest(data: Seq<u8>, i: int)
    ensures
        checksum::checksum_of(data).len() == 2 * outside::sha256_of(data).len(),
        0 <= i < outside::sha256_of(data).len() ==> {
            let sum = checksum::checksum_of(data);
            &&& hex_worth(sum[2 * i]) is Some
            &&& hex_worth(sum[2 * i + 1]) is Some
            &&& 16 * hex_worth(sum[2 * i])->0 + hex_worth(sum[2 * i + 1])->0
                == outside::sha256_of(data)[i]
        },
{
    let sum = checksum::checksum_of(data);
    if 0 <= i < outside::sha256_of(data).len() {
        assert((2 * i) / 2 == i && (2 * i) % 2 == 0);
        assert((2 * i + 1) / 2 == i && (2 * i + 1) % 2 == 1);
    }
}

/// Crate files with different digests have different checksums, wherever they differ.
pub proof fn law_different_digests_have_different_checksums(a: Seq<u8>, b: Seq<u8>)
    ensures
        checksum::checksum_of(a) == checksum::checksum_of(b) <==> outside::sha256_of(a)
            == outside::sha256_of(b),
{
    let x = outside::sha256_of(a);
    let y = outside::sha256_of(b);
    law_checksums_spell_the_digest(a, 0);
    law_checksums_spell_the_digest(b, 0);
    if checksum::checksum_of(a) == checksum::checksum_of(b) {
        assert forall|i: int| 0 <= i < x.len() implies x[i] == y[i] by {
            law_checksums_spell_the_digest(a, i);
            law_checksums_spell_the_digest(b, i);
        }
        assert(x =~= y);
    }
    if x == y {
        assert forall|i: int| 0 <= i < 2 * x.len() implies checksum::checksum_of(a)[i]
            == checksum::checksum_of(b)[i] by {
            assert(x[i / 2] == y[i / 2]);
        }
        assert(checksum::checksum_of(a) =~= checksum::checksum_of(b));
    }
}

/// The index is told what was published, field by field: the entry has the name, the
/// version, the features, the links and the Rust version of the metadata, the checksum of
/// the crate file, and is not yanked; and every dependency has its place.
pub proof fn law_entries_tell_what_was_published(
    entry: IndexEntry,
    m: PublishMetadata,
    cksum: Seq<char>,
)
    requires
        local::describes(entry, m, cksum),
    ensures
        entry.name@ == m.name@,
        entry.vers@ == m.vers@,
        entry.cksum@ == cksum,
        entry.features == m.features,
        entry.features2 is None,
        entry.yanked == false,
        entry.links == m.links,
        entry.rust_version == m.rust_version,
        entry.v is None,
        entry.deps@.len() == m.deps@.len(),
{
}

/// A dependency goes into the index field by field. What the manifest calls otherwise is
/// indexed under that name, with the crate's own name beside it.
pub proof fn law_dependencies_are_told_field_by_field(
    entry: IndexEntry,
    m: PublishMetadata,
    cksum: Seq<char>,
    i: int,
)
    requires
        local::describes(entry, m, cksum),
        0 <= i < m.deps@.len(),
    ensures
        entry.deps@[i].default_features == m.deps@[i].default_features,
        entry.deps@[i].optional == m.deps@[i].optional,
        entry.deps@[i].req@ == m.deps@[i].version_req@,
        entry.deps@[i].features@ == m.deps@[i].features@,
        entry.deps@[i].target == m.deps@[i].target,
        entry.deps@[i].kind == m.deps@[i].kind,
        entry.deps@[i].registry == m.deps@[i].registry,
        m.deps@[i].explicit_name_in_toml is None ==> entry.deps@[i].name@ == m.deps@[i].name@
            && entry.deps@[i].package is None,
        m.deps@[i].explicit_name_in_toml is Some ==> entry.deps@[i].name
            == m.deps@[i].explicit_name_in_toml->0 && entry.deps@[i].package == Some(
            m.deps@[i].name,
        ),
        entry.deps@[i].public is None,
        entry.deps@[i].artifact is None,
        entry.deps@[i].bindep_target is None,
        entry.deps@[i].lib is None,
{
}

/// Whether a code is that of a character of a name.
pub open spec fn is_name_code(code: int) -> bool {
    0x30 <= code <= 0x39 || 0x41 <= code <= 0x5a || 0x61 <= code <= 0x7a || code == 0x2d || code
        == 0x5f
}

/// Whether a field says something: it holds a character that is no white space.
pub open spec fn says_something(field: Option<String>) -> bool {
    field is Some && exists|i: int|
        0 <= i < field->0@.len() && !texts::white_space_codes().contains(
            #[trigger] field->0@[i] as int,
        )
}

proof fn lemma_filled(field: Option<String>)
    ensures
        types::filled(field) == says_something(field),
{
    if let Some(s) = field {
        assert forall|i: int| 0 <= i < s@.len() implies text::is_white_space(#[trigger] s@[i])
            == texts::white_space_codes().contains(s@[i] as int) by {
            texts::law_white_space_by_code(s@[i], Seq::empty(), Seq::empty());
        }
        if !text::blank(s@) {
            let i = choose|i: int| 0 <= i < s@.len() && !#[trigger] text::is_white_space(s@[i]);
            assert(!texts::white_space_codes().contains(s@[i] as int));
        }
        if says_something(field) {
            let i = choose|i: int|
                0 <= i < s@.len() && !texts::white_space_codes().contains(
                    #[trigger] s@[i] as int,
                );
            assert(!text::is_white_space(s@[i]));
        }
    }
}

proof fn lemma_name_codes(s: Seq<char>)
    ensures
        text::all_name_chars(s) <==> forall|i: int|
            0 <= i < s.len() ==> is_name_code(#[trigger] s[i] as int),
{
    assert forall|i: int| 0 <= i < s.len() implies text::is_name_char(#[trigger] s[i])
        == is_name_code(s[i] as int) by {
        texts::law_name_characters_by_code(s[i]);
    }
    if text::all_name_chars(s) {
        assert forall|i: int| 0 <= i < s.len() implies is_name_code(#[trigger] s[i] as int) by {
            assert(text::is_name_char(s[i]));
        }
    }
}

/// Whether a name can be published: at most 64 bytes of name characters, of which the first
/// is a letter or the underscore.
pub open spec fn is_crate_name(name: Seq<char>) -> bool {
    &&& 0 < name.len()
    &&& encode_utf8(name).len() <= 64
    &&& 0x41 <= name[0] as int <= 0x5a || 0x61 <= name[0] as int <= 0x7a || name[0] as int == 0x5f
    &&& forall|i: int| 0 <= i < name.len() ==> is_name_code(#[trigger] name[i] as int)
}

/// Whether a keyword can be published: at most 20 bytes of name characters, of which the
/// first is a letter or a digit.
pub open spec fn is_keyword(kw: Seq<char>) -> bool {
    &&& encode_utf8(kw).len() <= 20
    &&& forall|i: int| 0 <= i < kw.len() ==> is_name_code(#[trigger] kw[i] as int)
    &&& kw.len() > 0 ==> kw[0] as int != 0x2d && kw[0] as int != 0x5f
}

/// A name of at most 64 name characters that begins with a letter or the underscore brings
/// no complaint, and every other brings one.
pub proof fn law_names_bring_complaints_exactly(name: Seq<char>)
    ensures
        types::name_errors(name).len() == 0 <==> is_crate_name(name),
        (forall|i: int| 0 <= i < name.len() ==> is_name_code(#[trigger] name[i] as int))
            && 0 < name.len() <= 64 && (0x41 <= name[0] as int <= 0x5a || 0x61 <= name[0] as int
            <= 0x7a || name[0] as int == 0x5f) ==> types::name_errors(name).len() == 0,
{
    lemma_name_codes(name);
    if name.len() > 0 {
        texts::law_name_characters_by_code(name[0]);
    }
    if forall|i: int| 0 <= i < name.len() ==> is_name_code(#[trigger] name[i] as int) {
        assert(is_ascii_chars(name)) by {
            assert forall|i: int| 0 <= i < name.len() implies (#[trigger] name[i] as u32)
                < 128 by {
                assert(is_name_code(name[i] as int));
            }
        }
        is_ascii_chars_encode_utf8(name);
    }
}

/// What is said of a bad name.
pub proof fn law_complaints_about_names(name: Seq<char>)
    ensures
        name.len() == 0 ==> types::name_errors(name) == seq!["crate name cannot be empty"@],
        name.len() > 0 && encode_utf8(name).len() > 64 ==> types::name_errors(name) == seq![
            "crate name is too long: "@ + text::decimal(encode_utf8(name).len())
                + " chars (max 64)"@,
        ],
        0 < name.len() && encode_utf8(name).len() <= 64 ==> {
            let code = name[0] as int;
            let starts = 0x41 <= code <= 0x5a || 0x61 <= code <= 0x7a || code == 0x5f;
            let fits = forall|i: int| 0 <= i < name.len() ==> is_name_code(#[trigger] name[i] as int);
            let said = types::name_errors(name);
            &&& said.len() == (if starts { 0int } else { 1int }) + (if fits { 0int } else { 1int })
            &&& !starts ==> said[0] == "crate name must start with a letter or underscore"@
            &&& !fits ==> said.last()
                == "crate name contains invalid characters (only ASCII alphanumeric, `-`, `_` allowed)"@
        },
{
    lemma_name_codes(name);
    if name.len() > 0 {
        texts::law_name_characters_by_code(name[0]);
    }
}

/// What is said of a bad keyword, in order: that it is too long, that its characters do not
/// fit, that it begins wrongly.
pub proof fn law_complaints_about_keywords(kw: Seq<char>)
    ensures
        ({
            let n = encode_utf8(kw).len();
            let long = n > 20;
            let fits = forall|i: int| 0 <= i < kw.len() ==> is_name_code(#[trigger] kw[i] as int);
            let starts = kw.len() == 0 || kw[0] as int != 0x2d && kw[0] as int != 0x5f;
            let said = types::keyword_errors(kw);
            &&& said.len() == (if long { 1int } else { 0int }) + (if fits { 0int } else { 1int })
                + (if starts { 0int } else { 1int })
            &&& long ==> said[0] == "keyword `"@ + kw + "` is too long: "@ + text::decimal(n)
                + " chars (max 20)"@
            &&& !fits ==> said[if long { 1int } else { 0int }] == "keyword `"@ + kw
                + "` contains invalid characters (only ASCII alphanumeric, `-`, `_` allowed)"@
            &&& !starts ==> said.last() == "keyword `"@ + kw
                + "` must start with a letter or number"@
            &&& said.len() == 0 <==> is_keyword(kw)
        }),
{
    lemma_name_codes(kw);
}

/// What is said of the keywords of a list is what is said of each, one after another.
pub proof fn law_keywords_are_checked_one_by_one(kws: Seq<String>, kw: String)
    ensures
        types::all_keyword_errors(Seq::empty()) == Seq::<Seq<char>>::empty(),
        types::all_keyword_errors(kws.push(kw)) == types::all_keyword_errors(kws)
            + types::keyword_errors(kw@),
{
    assert(kws.push(kw).drop_last() =~= kws);
}

/// What is said of the fields that must be there, and of lists that are too long.
pub proof fn law_complaints_about_fields(m: PublishMetadata)
    ensures
        m.description is None ==> m.description_errors() == seq!["missing field `description`"@],
        m.description is Some && !says_something(m.description) ==> m.description_errors() == seq![
            "the `description` field must not be empty"@,
        ],
        says_something(m.description) ==> m.description_errors().len() == 0,
        !says_something(m.license) && !says_something(m.license_file) <==> m.license_errors().len()
            > 0,
        m.license_errors().len() > 0 ==> m.license_errors() == seq![
            "missing field `license` or `license-file` (at least one is required)"@,
        ],
        !says_something(m.documentation) && !says_something(m.homepage) && !says_something(
            m.repository,
        ) <==> m.link_errors().len() > 0,
        m.link_errors().len() > 0 ==> m.link_errors() == seq![
            "missing field `documentation`, `homepage`, or `repository` (at least one is required)"@,
        ],
        m.keywords@.len() <= 5 ==> types::too_many("keywords"@, m.keywords@.len()).len() == 0,
        m.keywords@.len() > 5 ==> types::too_many("keywords"@, m.keywords@.len()) == seq![
            "too many "@ + "keywords"@ + ": "@ + text::decimal(m.keywords@.len()) + " (max 5)"@,
        ],
        m.categories@.len() <= 5 ==> types::too_many("categories"@, m.categories@.len()).len() == 0,
        m.categories@.len() > 5 ==> types::too_many("categories"@, m.categories@.len()) == seq![
            "too many "@ + "categories"@ + ": "@ + text::decimal(m.categories@.len())
                + " (max 5)"@,
        ],
{
    lemma_filled(m.description);
    lemma_filled(m.license);
    lemma_filled(m.license_file);
    lemma_filled(m.documentation);
    lemma_filled(m.homepage);
    lemma_filled(m.repository);
}

/// Everything that is wrong is told, in this order: description, license, links, number of
/// keywords, keywords, number of categories, name.
pub proof fn law_everything_wrong_is_told_in_order(m: PublishMetadata)
    ensures
        m.validation_errors() == m.description_errors() + m.license_errors() + m.link_errors()
            + types::too_many("keywords"@, m.keywords@.len()) + types::all_keyword_errors(
            m.keywords@,
        ) + types::too_many("categories"@, m.categories@.len()) + types::name_errors(m.name@),
{
}

/// Metadata passes exactly where it has a description, a license or license file, and a
/// link; where there are at most five keywords and five categories; and where every keyword
/// and the name are made as they should be, character by character.
pub proof fn law_metadata_passes_exactly(m: PublishMetadata)
    ensures
        m.validation_errors().len() == 0 <==> {
            &&& says_something(m.description)
            &&& says_something(m.license) || says_something(m.license_file)
            &&& says_something(m.documentation) || says_something(m.homepage) || says_something(
                m.repository,
            )
            &&& m.keywords@.len() <= 5
            &&& forall|i: int| 0 <= i < m.keywords@.len() ==> is_keyword(#[trigger] m.keywords@[i]@)
            &&& m.categories@.len() <= 5
            &&& is_crate_name(m.name@)
        },
        m.validation_errors().len() == 0 <==> m.publishable(),
{
    lemma_filled(m.description);
    lemma_filled(m.license);
    lemma_filled(m.license_file);
    lemma_filled(m.documentation);
    lemma_filled(m.homepage);
    lemma_filled(m.repository);
    law_names_bring_complaints_exactly(m.name@);
    lemma_keywords_pass(m.keywords@);
    types::law_validation_is_exact(m);
}

proof fn lemma_keywords_pass(kws: Seq<String>)
    ensures
        types::all_keyword_errors(kws).len() == 0 <==> forall|i: int|
            0 <= i < kws.len() ==> is_keyword(#[trigger] kws[i]@),
    decreases kws.len(),
{
    if kws.len() > 0 {
        let rest = kws.drop_last();
        lemma_keywords_pass(rest);
        law_complaints_about_keywords(kws.last()@);
        assert forall|i: int| 0 <= i < rest.len() implies rest[i] == kws[i] by {}
        if types::all_keyword_errors(kws).len() == 0 {
            assert forall|i: int| 0 <= i < kws.len() implies is_keyword(#[trigger] kws[i]@) by {
                if i < rest.len() {
                    assert(is_keyword(rest[i]@));
                }
            }
        }
        if forall|i: int| 0 <= i < kws.len() ==> is_keyword(#[trigger] kws[i]@) {
            assert(is_keyword(kws[kws.len() - 1]@));
            assert forall|i: int| 0 <= i < rest.len() implies is_keyword(#[trigger] rest[i]@) by {
                assert(is_keyword(kws[i]@));
            }
        }
    }
}

} // verus!
