//! What cargo and a registry tell each other: the metadata of a publish request, the
//! entries of the index, and the answers.

use std::collections::HashMap;
use vstd::prelude::*;
use vstd::utf8::*;

use crate::text;
use crate::text::{byte_len, decimal_text, is_blank, only_name_chars};

verus! {

/// The metadata that comes with a publish request.
#[derive(Debug)]
pub struct PublishMetadata {
    pub name: String,
    pub vers: String,
    pub deps: Vec<PublishDependency>,
    pub features: HashMap<String, Vec<String>>,
    pub authors: Vec<String>,
    pub description: Option<String>,
    pub documentation: Option<String>,
    pub homepage: Option<String>,
    pub readme: Option<String>,
    pub readme_file: Option<String>,
    pub keywords: Vec<String>,
    pub categories: Vec<String>,
    pub license: Option<String>,
    pub license_file: Option<String>,
    pub repository: Option<String>,
    pub links: Option<String>,
    pub rust_version: Option<String>,
}

/// A dependency in a publish request.
#[derive(Debug)]
pub struct PublishDependency {
    pub name: String,
    pub version_req: String,
    pub features: Vec<String>,
    pub optional: bool,
    pub default_features: bool,
    pub target: Option<String>,
    pub kind: Option<String>,
    pub registry: Option<String>,
    pub explicit_name_in_toml: Option<String>,
}

/// The index entry of one version of a crate.
#[derive(Debug)]
pub struct IndexEntry {
    pub name: String,
    pub vers: String,
    pub deps: Vec<IndexDependency>,
    pub cksum: String,
    pub features: HashMap<String, Vec<String>>,
    pub features2: Option<HashMap<String, Vec<String>>>,
    pub yanked: bool,
    pub links: Option<String>,
    pub rust_version: Option<String>,
    pub v: Option<u32>,
}

/// A dependency in an index entry. The last four fields may come with an entry and
/// are not written back.
#[derive(Debug)]
pub struct IndexDependency {
    pub name: String,
    pub req: String,
    pub features: Vec<String>,
    pub optional: bool,
    pub default_features: bool,
    pub target: Option<String>,
    pub kind: Option<String>,
    pub registry: Option<String>,
    pub package: Option<String>,
    pub public: Option<bool>,
    pub artifact: Option<serde_json::Value>,
    pub bindep_target: Option<String>,
    pub lib: Option<bool>,
}

/// The answer to a publish request that was carried out.
#[derive(Debug)]
pub struct PublishResponse {
    pub warnings: PublishWarnings,
}

/// What cargo is to tell the user about a crate that was accepted.
#[derive(Debug)]
pub struct PublishWarnings {
    pub invalid_categories: Vec<String>,
    pub invalid_badges: Vec<String>,
    pub other: Vec<String>,
}

/// What a registry says of itself in its `config.json`.
#[derive(Debug)]
pub struct RegistryConfig {
    pub dl: String,
    pub api: String,
    pub auth_required: Option<bool>,
}

/// Whether the default features of a dependency are on where a request does not say.
pub fn default_true() -> (on: bool)
    ensures
        on,
{
    true
}

/// A field that is there and says something.
pub open spec fn filled(field: Option<String>) -> bool {
    match field {
        Some(text) => !text::blank(text@),
        None => false,
    }
}

/// Whether a field is there and says something.
fn is_filled(field: &Option<String>) -> (yes: bool)
    ensures
        yes == filled(*field),
{
    match field {
        Some(text) => !is_blank(text.as_str()),
        None => false,
    }
}

/// The complaint about `count` where at most five are allowed.
pub open spec fn too_many(what: Seq<char>, count: nat) -> Seq<Seq<char>> {
    if count > 5 {
        seq!["too many "@ + what + ": "@ + text::decimal(count) + " (max 5)"@]
    } else {
        Seq::empty()
    }
}

/// The complaints about one keyword: its length in bytes, its characters, its start.
pub open spec fn keyword_errors(kw: Seq<char>) -> Seq<Seq<char>> {
    let long = if encode_utf8(kw).len() > 20 {
        seq![
            "keyword `"@ + kw + "` is too long: "@ + text::decimal(encode_utf8(kw).len())
                + " chars (max 20)"@,
        ]
    } else {
        Seq::empty()
    };
    let odd = if !text::all_name_chars(kw) {
        seq![
            "keyword `"@ + kw
                + "` contains invalid characters (only ASCII alphanumeric, `-`, `_` allowed)"@,
        ]
    } else {
        Seq::empty()
    };
    let start = if kw.len() > 0 && (kw[0] == '-' || kw[0] == '_') {
        seq!["keyword `"@ + kw + "` must start with a letter or number"@]
    } else {
        Seq::empty()
    };
    long + odd + start
}

/// The complaints about the keywords of a list, in order.
pub open spec fn all_keyword_errors(keywords: Seq<String>) -> Seq<Seq<char>>
    decreases keywords.len(),
{
    if keywords.len() == 0 {
        Seq::empty()
    } else {
        all_keyword_errors(keywords.drop_last()) + keyword_errors(keywords.last()@)
    }
}

/// The complaints about a crate name.
pub open spec fn name_errors(name: Seq<char>) -> Seq<Seq<char>> {
    if name.len() == 0 {
        seq!["crate name cannot be empty"@]
    } else if encode_utf8(name).len() > 64 {
        seq![
            "crate name is too long: "@ + text::decimal(encode_utf8(name).len())
                + " chars (max 64)"@,
        ]
    } else {
        let start = if !text::is_ascii_letter(name[0]) && name[0] != '_' {
            seq!["crate name must start with a letter or underscore"@]
        } else {
            Seq::empty()
        };
        let odd = if !text::all_name_chars(name) {
            seq![
                "crate name contains invalid characters (only ASCII alphanumeric, `-`, `_` allowed)"@,
            ]
        } else {
            Seq::empty()
        };
        start + odd
    }
}

impl PublishMetadata {
    /// The complaints about the description.
    pub open spec fn description_errors(self) -> Seq<Seq<char>> {
        match self.description {
            None => seq!["missing field `description`"@],
            Some(text) => if text::blank(text@) {
                seq!["the `description` field must not be empty"@]
            } else {
                Seq::empty()
            },
        }
    }

    /// The complaints about the license.
    pub open spec fn license_errors(self) -> Seq<Seq<char>> {
        if !filled(self.license) && !filled(self.license_file) {
            seq!["missing field `license` or `license-file` (at least one is required)"@]
        } else {
            Seq::empty()
        }
    }

    /// The complaints about where to read more.
    pub open spec fn link_errors(self) -> Seq<Seq<char>> {
        if !filled(self.documentation) && !filled(self.homepage) && !filled(self.repository) {
            seq![
                "missing field `documentation`, `homepage`, or `repository` (at least one is required)"@,
            ]
        } else {
            Seq::empty()
        }
    }

    /// All that keeps the metadata from being published, in the order in which it is told.
    pub open spec fn validation_errors(self) -> Seq<Seq<char>> {
        self.description_errors() + self.license_errors() + self.link_errors() + too_many(
            "keywords"@,
            self.keywords@.len(),
        ) + all_keyword_errors(self.keywords@) + too_many("categories"@, self.categories@.len())
            + name_errors(self.name@)
    }

    /// Metadata that meets the requirements of crates.io.
    pub open spec fn publishable(self) -> bool {
        &&& filled(self.description)
        &&& filled(self.license) || filled(self.license_file)
        &&& filled(self.documentation) || filled(self.homepage) || filled(self.repository)
        &&& self.keywords@.len() <= 5
        &&& forall|i: int|
            0 <= i < self.keywords@.len() ==> #[trigger] good_keyword(self.keywords@[i]@)
        &&& self.categories@.len() <= 5
        &&& good_name(self.name@)
    }

    /// Checks the metadata against the requirements of crates.io. The result holds what
    /// is wrong with it, and nothing where it can be published.
    pub fn validate(&self) -> (errors: Vec<String>)
        ensures
            text::views(errors@) == self.validation_errors(),
    {
        let mut errors: Vec<String> = Vec::new();
        self.check_required(&mut errors);
        check_count(&mut errors, "keywords", self.keywords.len());
        let ghost before = text::views(errors@);
        let mut i: usize = 0;
        while i < self.keywords.len()
            invariant
                i <= self.keywords@.len(),
                text::views(errors@) == before + all_keyword_errors(
                    self.keywords@.take(i as int),
                ),
            decreases self.keywords@.len() - i,
        {
            check_keyword(&mut errors, self.keywords[i].as_str());
            proof {
                let kws = self.keywords@.take(i + 1);
                assert(kws.drop_last() =~= self.keywords@.take(i as int));
                assert(text::views(errors@) =~= before + all_keyword_errors(kws));
            }
            i = i + 1;
        }
        assert(self.keywords@.take(self.keywords@.len() as int) =~= self.keywords@);
        check_count(&mut errors, "categories", self.categories.len());
        check_name(&mut errors, self.name.as_str());
        errors
    }

    /// Checks the fields that must be there.
    fn check_required(&self, errors: &mut Vec<String>)
        ensures
            text::views(final(errors)@) == text::views(old(errors)@)
                + self.description_errors() + self.license_errors() + self.link_errors(),
    {
        match &self.description {
            None => complain(errors, String::from_str("missing field `description`")),
            Some(text) => {
                if is_blank(text.as_str()) {
                    complain(
                        errors,
                        String::from_str("the `description` field must not be empty"),
                    );
                }
            },
        }
        assert(text::views(errors@) =~= text::views(old(errors)@)
            + self.description_errors());
        if !is_filled(&self.license) && !is_filled(&self.license_file) {
            complain(
                errors,
                String::from_str(
                    "missing field `license` or `license-file` (at least one is required)",
                ),
            );
        }
        assert(text::views(errors@) =~= text::views(old(errors)@)
            + self.description_errors() + self.license_errors());
        if !is_filled(&self.documentation) && !is_filled(&self.homepage) && !is_filled(
            &self.repository,
        ) {
            complain(
                errors,
                String::from_str(
                    "missing field `documentation`, `homepage`, or `repository` (at least one is required)",
                ),
            );
        }
        assert(text::views(errors@) =~= text::views(old(errors)@)
            + self.description_errors() + self.license_errors() + self.link_errors());
    }
}

/// A keyword that may stand in published metadata.
pub open spec fn good_keyword(kw: Seq<char>) -> bool {
    &&& encode_utf8(kw).len() <= 20
    &&& text::all_name_chars(kw)
    &&& kw.len() > 0 ==> kw[0] != '-' && kw[0] != '_'
}

/// A name that a crate may be published under.
pub open spec fn good_name(name: Seq<char>) -> bool {
    &&& name.len() > 0
    &&& encode_utf8(name).len() <= 64
    &&& text::is_ascii_letter(name[0]) || name[0] == '_'
    &&& text::all_name_chars(name)
}

/// Adds one complaint.
fn complain(errors: &mut Vec<String>, message: String)
    ensures
        text::views(final(errors)@) == text::views(old(errors)@).push(message@),
{
    errors.push(message);
    assert(text::views(errors@) =~= text::views(old(errors)@).push(message@));
}

/// Checks that there are at most five of something.
fn check_count(errors: &mut Vec<String>, what: &str, count: usize)
    ensures
        text::views(final(errors)@) == text::views(old(errors)@) + too_many(
            what@,
            count as nat,
        ),
{
    if count > 5 {
        let mut message = String::from_str("too many ");
        message.append(what);
        message.append(": ");
        message.append(decimal_text(count).as_str());
        message.append(" (max 5)");
        complain(errors, message);
    }
    assert(text::views(errors@) =~= text::views(old(errors)@) + too_many(
        what@,
        count as nat,
    ));
}

/// Checks one keyword.
fn check_keyword(errors: &mut Vec<String>, kw: &str)
    ensures
        text::views(final(errors)@) == text::views(old(errors)@) + keyword_errors(
            kw@,
        ),
{
    let n = byte_len(kw);
    if n > 20 {
        let mut message = String::from_str("keyword `");
        message.append(kw);
        message.append("` is too long: ");
        message.append(decimal_text(n).as_str());
        message.append(" chars (max 20)");
        complain(errors, message);
    }
    if !only_name_chars(kw) {
        let mut message = String::from_str("keyword `");
        message.append(kw);
        message.append(
            "` contains invalid characters (only ASCII alphanumeric, `-`, `_` allowed)",
        );
        complain(errors, message);
    }
    if !kw.is_empty() && (kw.get_char(0) == '-' || kw.get_char(0) == '_') {
        let mut message = String::from_str("keyword `");
        message.append(kw);
        message.append("` must start with a letter or number");
        complain(errors, message);
    }
    assert(text::views(errors@) =~= text::views(old(errors)@) + keyword_errors(kw@));
}

/// Checks a crate name.
fn check_name(errors: &mut Vec<String>, name: &str)
    ensures
        text::views(final(errors)@) == text::views(old(errors)@) + name_errors(name@),
{
    let n = byte_len(name);
    if name.is_empty() {
        complain(errors, String::from_str("crate name cannot be empty"));
    } else if n > 64 {
        let mut message = String::from_str("crate name is too long: ");
        message.append(decimal_text(n).as_str());
        message.append(" chars (max 64)");
        complain(errors, message);
    } else {
        let first = name.get_char(0);
        let letter = ('a' <= first && first <= 'z') || ('A' <= first && first <= 'Z');
        if !letter && first != '_' {
            complain(errors, String::from_str("crate name must start with a letter or underscore"));
        }
        if !only_name_chars(name) {
            complain(
                errors,
                String::from_str(
                    "crate name contains invalid characters (only ASCII alphanumeric, `-`, `_` allowed)",
                ),
            );
        }
    }
    assert(text::views(errors@) =~= text::views(old(errors)@) + name_errors(name@));
}

/// Metadata passes the check if and only if it meets the requirements of crates.io.
pub proof fn law_validation_is_exact(m: PublishMetadata)
    ensures
        m.validation_errors().len() == 0 <==> m.publishable(),
{
    lemma_keywords_fine(m.keywords@);
}

proof fn lemma_keywords_fine(keywords: Seq<String>)
    ensures
        all_keyword_errors(keywords).len() == 0 <==> forall|i: int|
            0 <= i < keywords.len() ==> #[trigger] good_keyword(keywords[i]@),
    decreases keywords.len(),
{
    if keywords.len() > 0 {
        let rest = keywords.drop_last();
        lemma_keywords_fine(rest);
        let last = keywords.last()@;
        assert(keyword_errors(last).len() == 0 <==> good_keyword(last));
        assert forall|i: int| 0 <= i < rest.len() implies rest[i] == keywords[i] by {}
        if all_keyword_errors(keywords).len() == 0 {
            assert forall|i: int| 0 <= i < keywords.len() implies #[trigger] good_keyword(
                keywords[i]@,
            ) by {
                if i < rest.len() {
                    assert(good_keyword(rest[i]@));
                }
            }
        }
        if forall|i: int| 0 <= i < keywords.len() ==> #[trigger] good_keyword(keywords[i]@) {
            assert(good_keyword(keywords[keywords.len() - 1]@));
            assert forall|i: int| 0 <= i < rest.len() implies #[trigger] good_keyword(
                rest[i]@,
            ) by {
                assert(good_keyword(keywords[i]@));
            }
        }
    }
}

} // verus!
