//! Registries: where things stand, what index files hold, and how layers make up one
//! registry.

use vstd::prelude::*;
use vstd::utf8::*;

use crate::laws::texts;
use crate::outside;
use crate::registry::index;
use crate::registry::index::Reading;
use crate::registry::layers;
use crate::registry::layers::{AnyRegistry, RegistryBuildOptions, RegistrySpec, RegistrySpecView};
use crate::registry::local;
use crate::registry::overlay;
use crate::registry::remote;
use crate::registry::shard;
use crate::registry::walk;
use crate::registry::RegistryError;
use crate::text;
use crate::types::IndexEntry;

verus! {

/// Names of one and two bytes stand in directories of their own; names of three bytes by
/// their first byte; longer names by their first two bytes and the next two.
pub proof fn law_names_stand_by_their_first_bytes(a: Seq<char>, b: Seq<char>, c: Seq<char>)
    ensures
        !shard::shardable(Seq::empty()),
        encode_utf8(a).len() == 1 ==> shard::shardable(a) && shard::shard_of(a) == (
            "1"@,
            None::<Seq<char>>,
        ),
        encode_utf8(a).len() == 2 ==> shard::shardable(a) && shard::shard_of(a) == (
            "2"@,
            None::<Seq<char>>,
        ),
        encode_utf8(a).len() == 1 && encode_utf8(b).len() == 2 ==> shard::shardable(a + b)
            && shard::shard_of(a + b) == ("3"@, Some(a)),
        encode_utf8(a).len() == 2 && encode_utf8(b).len() == 2 ==> shard::shardable(a + b + c)
            && shard::shard_of(a + b + c) == (a, Some(b)),
{
    let none = Seq::<char>::empty();
    assert(encode_utf8(none).len() == 0);
    texts::law_bytes_of_a_part_hold_the_part(none, a, b);
    assert(none + a + b =~= a + b);
    texts::lemma_bytes_of_both(a, b);
    texts::law_bytes_of_a_part_hold_the_part(none, a, b + c);
    texts::law_bytes_of_a_part_hold_the_part(a, b, c);
    texts::lemma_bytes_of_both(a + b, c);
    assert(none + a + (b + c) =~= a + b + c);
}

/// A name of four bytes or more has a place exactly where it begins with two parts of two
/// bytes each.
pub proof fn law_placed_names_begin_with_two_parts(lower: Seq<char>)
    requires
        encode_utf8(lower).len() >= 4,
    ensures
        shard::shardable(lower) <==> text::cuts_at(lower, 2) && text::cuts_at(lower, 4),
        shard::shardable(lower) ==> ({
            let (first, second) = shard::shard_of(lower);
            &&& second is Some
            &&& encode_utf8(first).len() == 2
            &&& encode_utf8(second->0).len() == 2
            &&& (first + second->0).is_prefix_of(lower)
        }),
{
    if shard::shardable(lower) {
        texts::law_cut_text_is_two_parts(lower, 2);
        texts::law_cut_text_is_two_parts(lower, 4);
        let head = text::byte_slice(lower, 0, 2);
        let rest = text::byte_slice(lower, 2, encode_utf8(lower).len() as int);
        let four = text::byte_slice(lower, 0, 4);
        let second = text::byte_slice(lower, 2, 4);
        lemma_two_parts(lower);
        assert((head + second).is_prefix_of(lower)) by {
            assert(lower.subrange(0, four.len() as int) =~= four);
        }
    }
}

proof fn lemma_two_parts(lower: Seq<char>)
    requires
        text::cuts_at(lower, 2),
        text::cuts_at(lower, 4),
    ensures
        text::byte_slice(lower, 0, 2) + text::byte_slice(lower, 2, 4) == text::byte_slice(
            lower,
            0,
            4,
        ),
        encode_utf8(text::byte_slice(lower, 2, 4)).len() == 2,
{
    let bytes = encode_utf8(lower);
    encode_utf8_valid_utf8(lower);
    valid_utf8_split(bytes, 4);
    let four = bytes.subrange(0, 4);
    is_char_boundary_iff_not_is_continuation_byte(bytes, 2);
    is_char_boundary_iff_not_is_continuation_byte(four, 2);
    assert(four[2] == bytes[2]);
    valid_utf8_split(four, 2);
    decode_utf8_split(four, 2);
    assert(four.subrange(0, 2) =~= bytes.subrange(0, 2));
    assert(four.subrange(2, 4) =~= bytes.subrange(2, 4));
    decode_utf8_encode_utf8(bytes.subrange(2, 4));
}

/// Paths are joined by one slash; an absolute path stands for itself.
pub proof fn law_paths_are_joined_by_one_slash(base: Seq<char>, part: Seq<char>)
    ensures
        part.len() > 0 && part[0] as int == 0x2f ==> local::joined(base, part) == part,
        !(part.len() > 0 && part[0] as int == 0x2f) && base.len() == 0 ==> local::joined(
            base,
            part,
        ) == part,
        !(part.len() > 0 && part[0] as int == 0x2f) && base.len() > 0 && base.last() as int == 0x2f
            ==> local::joined(base, part) == base + part,
        !(part.len() > 0 && part[0] as int == 0x2f) && base.len() > 0 && base.last() as int != 0x2f
            ==> local::joined(base, part) == base.push('/') + part,
{
    reveal_strlit("/");
    assert(base + "/"@ + part =~= base.push('/') + part);
    assert(base + part =~= part || base.len() > 0);
}

/// A crate file is called by the crate's name, a hyphen, the version, and `.crate`.
pub proof fn law_crate_files_are_called_so(name: Seq<char>, version: Seq<char>)
    ensures
        local::crate_file_name(name, version) == name + seq!['-'] + version + seq![
            '.',
            'c',
            'r',
            'a',
            't',
            'e',
        ],
{
    reveal_strlit("-");
    reveal_strlit(".crate");
    assert("-"@ =~= seq!['-']);
    assert(".crate"@ =~= seq!['.', 'c', 'r', 'a', 't', 'e']);
}

/// Where the index file of a crate stands in a registry, and its path in a sparse index:
/// the same directories, one under `index`, the other under the root.
pub proof fn law_index_files_stand_so(dir: Seq<char>, lower: Seq<char>)
    requires
        is_ascii_chars(lower),
        lower.len() > 0,
        !lower.contains('/'),
        dir.len() > 0 && dir.last() != '/',
    ensures
        lower.len() == 1 ==> local::index_file(dir, lower) == dir + "/index/1/"@ + lower
            && remote::index_path_of(lower) == "/1/"@ + lower,
        lower.len() == 2 ==> local::index_file(dir, lower) == dir + "/index/2/"@ + lower
            && remote::index_path_of(lower) == "/2/"@ + lower,
        lower.len() == 3 ==> local::index_file(dir, lower) == dir + "/index/3/"@ + lower.take(1)
            + "/"@ + lower && remote::index_path_of(lower) == "/3/"@ + lower.take(1) + "/"@ + lower,
        lower.len() > 3 ==> local::index_file(dir, lower) == dir + "/index/"@ + lower.take(2)
            + "/"@ + lower.subrange(2, 4) + "/"@ + lower && remote::index_path_of(lower) == "/"@
            + lower.take(2) + "/"@ + lower.subrange(2, 4) + "/"@ + lower,
{
    shard::law_ascii_names_have_a_place(lower);
    reveal_strlit("/");
    reveal_strlit("1");
    reveal_strlit("2");
    reveal_strlit("3");
    reveal_strlit("/1/");
    reveal_strlit("/2/");
    reveal_strlit("/3/");
    reveal_strlit("index");
    reveal_strlit("/index/");
    reveal_strlit("/index/1/");
    reveal_strlit("/index/2/");
    reveal_strlit("/index/3/");
    assert forall|i: int| 0 <= i < lower.len() implies lower[i] != '/' by {
        assert(lower.contains(lower[i]));
    }
    assert(lower[0] != '/');
    if lower.len() == 1 {
        assert(local::index_file(dir, lower) =~= dir + "/index/1/"@ + lower);
        assert(remote::index_path_of(lower) =~= "/1/"@ + lower);
    } else if lower.len() == 2 {
        assert(local::index_file(dir, lower) =~= dir + "/index/2/"@ + lower);
        assert(remote::index_path_of(lower) =~= "/2/"@ + lower);
    } else if lower.len() == 3 {
        assert(local::index_file(dir, lower) =~= dir + "/index/3/"@ + lower.take(1) + "/"@ + lower);
        assert(remote::index_path_of(lower) =~= "/3/"@ + lower.take(1) + "/"@ + lower);
    } else {
        assert(lower.subrange(2, 4)[0] == lower[2] && lower.subrange(2, 4).last() == lower[3]);
        assert(lower.take(2)[0] == lower[0] && lower.take(2).last() == lower[1]);
        assert(local::index_file(dir, lower) =~= dir + "/index/"@ + lower.take(2) + "/"@
            + lower.subrange(2, 4) + "/"@ + lower);
    }
}

/// Every crate has its index file below `index`, and its path in a sparse index below the
/// root, in the directories in which its name stands.
pub proof fn law_index_files_stand_in_their_directories(dir: Seq<char>, lower: Seq<char>)
    ensures
        ({
            let (first, second) = shard::shard_of(lower);
            let under = local::joined(local::joined(dir, "index"@), first);
            &&& second is None ==> local::index_file(dir, lower) == local::joined(under, lower)
            &&& second is Some ==> local::index_file(dir, lower) == local::joined(
                local::joined(under, second->0),
                lower,
            )
            &&& second is None ==> remote::index_path_of(lower) == seq!['/'] + first + seq!['/']
                + lower
            &&& second is Some ==> remote::index_path_of(lower) == seq!['/'] + first + seq!['/']
                + second->0 + seq!['/'] + lower
        }),
{
    reveal_strlit("/");
    assert("/"@ =~= seq!['/']);
}

/// What was read from a file counts, and nothing else.
pub proof fn law_files_are_read_as_they_are(content: String, e: std::io::Error)
    ensures
        local::read_text(Some(Ok(content))) == Some(content@),
        local::read_text(Some(Err(e))) is None,
        local::read_text(None) is None,
{
}

/// Which of the entries that lines were found to hold are there: all, in order.
pub proof fn law_found_entries_are_kept_in_order(
    found: Seq<Option<IndexEntry>>,
    more: Seq<Option<IndexEntry>>,
    e: IndexEntry,
)
    ensures
        index::present(Seq::empty()) == Seq::<IndexEntry>::empty(),
        index::present(seq![Some(e)]) == seq![e],
        index::present(seq![None]) == Seq::<IndexEntry>::empty(),
        index::present(found + more) == index::present(found) + index::present(more),
    decreases more.len(),
{
    reveal_with_fuel(index::present, 2);
    assert(seq![Some(e)].drop_last() =~= Seq::<Option<IndexEntry>>::empty());
    assert(seq![None::<IndexEntry>].drop_last() =~= Seq::<Option<IndexEntry>>::empty());
    assert(index::present(seq![Some(e)]) =~= seq![e]);
    if more.len() == 0 {
        assert(found + more =~= found);
        assert(index::present(found) + index::present(more) =~= index::present(found));
    } else {
        law_found_entries_are_kept_in_order(found, more.drop_last(), e);
        assert((found + more).drop_last() =~= found + more.drop_last());
        assert((found + more).last() == more.last());
        assert(index::present(found + more) =~= index::present(found) + index::present(more));
    }
}

/// An index file is read line by line: a line gives the entry it holds, if it holds one,
/// and then come the entries of the rest.
pub proof fn law_index_files_are_read_line_by_line(
    line: Seq<char>,
    rest: Seq<char>,
    reading: Reading,
)
    requires
        !line.contains('\n'),
        line.len() == 0 || line.last() != '\r',
    ensures
        index::entries_of(Seq::empty(), reading).len() == 0,
        line.len() == 0 || reading(line) is None ==> index::entries_of(
            line + seq!['\n'] + rest,
            reading,
        ) == index::entries_of(rest, reading),
        line.len() > 0 && reading(line) is Some ==> index::entries_of(
            line + seq!['\n'] + rest,
            reading,
        ) == seq![reading(line)->0] + index::entries_of(rest, reading),
{
    let held = |l: Seq<char>| l.len() > 0;
    texts::law_lines_end_with_line_feeds(line, rest);
    let all = seq![line] + text::lines(rest);
    overlay::lemma_filter_add(seq![line], text::lines(rest), held);
    let first = seq![line].filter(held);
    let others = text::lines(rest).filter(held);
    assert(seq![line].drop_last() =~= Seq::<Seq<char>>::empty());
    assert(first =~= if line.len() > 0 {
        seq![line]
    } else {
        Seq::empty()
    }) by {
        reveal(Seq::filter);
        reveal_with_fuel(Seq::filter, 2);
        assert(seq![line].last() == line);
    }
    assert(Seq::<Seq<char>>::empty().filter(held) =~= Seq::empty()) by {
        reveal(Seq::filter);
    }
    assert((first + others).map_values(reading) =~= first.map_values(reading)
        + others.map_values(reading));
    if line.len() > 0 {
        assert(first.map_values(reading) =~= seq![reading(line)]);
        let e = reading(line)->0;
        law_found_entries_are_kept_in_order(seq![reading(line)], others.map_values(reading), e);
        law_found_entries_are_kept_in_order(Seq::empty(), Seq::empty(), e);
    } else {
        assert(first.map_values(reading) + others.map_values(reading) =~= others.map_values(
            reading,
        ));
    }
    assert(Seq::<Seq<char>>::empty().map_values(reading) =~= Seq::empty());
    if line.len() > 0 && reading(line) is None {
        assert(Seq::<IndexEntry>::empty() + index::entries_of(rest, reading) =~= index::entries_of(
            rest,
            reading,
        ));
    }
}

/// When a version is written anew, the lines that hold an entry of it go, all others stay
/// as they are and in order, and the new line comes last.
pub proof fn law_rewriting_drops_one_version(
    content: Seq<char>,
    reading: Reading,
    vers: Seq<char>,
    line: Seq<char>,
)
    ensures
        index::file_after(Some(content), reading, vers, line) == index::file_of(
            text::lines(content).filter(
                |l: Seq<char>| !(reading(l) is Some && reading(l)->0.vers@ == vers),
            ).push(line),
        ),
        index::file_after(None, reading, vers, line) == line + seq!['\n'],
{
    lemma_staying_filtered(text::lines(content), reading, vers);
    let none = Seq::<Seq<char>>::empty();
    assert(index::staying(none, none.map_values(reading), vers).push(line) =~= seq![line]);
    assert(index::file_of(seq![line]) =~= line + seq!['\n']);
}

proof fn lemma_staying_filtered(lines: Seq<Seq<char>>, reading: Reading, vers: Seq<char>)
    ensures
        index::staying(lines, lines.map_values(reading), vers) == lines.filter(
            |l: Seq<char>| !(reading(l) is Some && reading(l)->0.vers@ == vers),
        ),
    decreases lines.len(),
{
    reveal(Seq::filter);
    let found = lines.map_values(reading);
    if lines.len() > 0 {
        lemma_staying_filtered(lines.drop_last(), reading, vers);
        assert(found.drop_last() =~= lines.drop_last().map_values(reading));
        assert(found.last() == reading(lines.last()));
    } else {
        assert(index::staying(lines, found, vers) =~= lines.filter(
            |l: Seq<char>| !(reading(l) is Some && reading(l)->0.vers@ == vers),
        ));
    }
}

/// A file has its lines one after another, each with a line feed behind it.
pub proof fn law_files_are_lines_with_line_feeds(lines: Seq<Seq<char>>, line: Seq<char>)
    ensures
        index::file_of(Seq::empty()) == seq!['\n'],
        index::file_of(seq![line]) == line + seq!['\n'],
        lines.len() > 0 ==> index::file_of(lines.push(line)) == index::file_of(lines) + line + seq![
            '\n',
        ],
{
    text::lemma_join_push(lines, seq!['\n'], line);
    assert(index::file_of(Seq::empty()) =~= seq!['\n']);
    assert(index::file_of(seq![line]) =~= line + seq!['\n']);
    if lines.len() > 0 {
        assert(index::file_of(lines.push(line)) =~= index::file_of(lines) + line + seq!['\n']);
    }
}

/// A steady reader decides what is read and what is rewritten: what it finds in the lines
/// is what counts.
pub proof fn law_steady_readers_decide<D: Fn(&str) -> Option<IndexEntry>>(
    read: D,
    reading: Reading,
    entries: Seq<IndexEntry>,
    after: Seq<char>,
    content: Seq<char>,
    vers: Seq<char>,
    line: Seq<char>,
)
    requires
        forall|s: &str, entry: Option<IndexEntry>| #[trigger]
            call_ensures(read, (s,), entry) ==> entry == reading(s@),
    ensures
        index::is_read(entries, content, read) ==> entries == index::entries_of(content, reading),
        index::is_updated(after, Some(content), vers, line, read) ==> after == index::file_after(
            Some(content),
            reading,
            vers,
            line,
        ),
        index::is_updated(after, None, vers, line, read) ==> after == line + seq!['\n'],
{
    assert(index::reads_as(read, reading));
    law_rewriting_drops_one_version(content, reading, vers, line);
}

/// Whether a function may give an entry, or none, for a line.
pub open spec fn may_give<D: Fn(&str) -> Option<IndexEntry>>(
    read: D,
    line: Seq<char>,
    given: Option<IndexEntry>,
) -> bool {
    exists|s: &str| s@ == line && #[trigger] call_ensures(read, (s,), given)
}

/// Every line that holds something is read once, by the function that was passed in, and
/// only those are left out that it found no entry in.
pub proof fn law_every_line_is_read_once<D: Fn(&str) -> Option<IndexEntry>>(
    entries: Seq<IndexEntry>,
    content: Seq<char>,
    read: D,
)
    requires
        index::is_read(entries, content, read),
    ensures
        exists|found: Seq<Option<IndexEntry>>|
            {
                &&& entries == #[trigger] index::present(found)
                &&& found.len() == index::filled_lines(content).len()
                &&& forall|i: int|
                    0 <= i < found.len() ==> may_give(
                        read,
                        index::filled_lines(content)[i],
                        #[trigger] found[i],
                    )
            },
        index::filled_lines(content) == text::lines(content).filter(
            |l: Seq<char>| l.len() > 0,
        ),
{
    let found = choose|found: Seq<Option<IndexEntry>>| #[trigger]
        index::may_read_all(read, index::filled_lines(content), found) && entries
            == index::present(found);
    assert forall|i: int| 0 <= i < found.len() implies may_give(
        read,
        index::filled_lines(content)[i],
        #[trigger] found[i],
    ) by {
        assert(index::may_read(read, index::filled_lines(content)[i], found[i]));
    }
    assert(entries == index::present(found));
}

/// Merging one more entry of the top layer drops what there was of its version and puts it
/// last; without any, the bottom layer is left as it is.
pub proof fn law_top_entries_are_laid_on_one_by_one(
    top: Seq<IndexEntry>,
    bottom: Seq<IndexEntry>,
    e: IndexEntry,
)
    ensures
        overlay::merged(Seq::empty(), bottom) == bottom,
        overlay::merged(top.push(e), bottom) == overlay::merged(top, bottom).filter(
            |x: IndexEntry| x.vers@ != e.vers@,
        ).push(e),
{
    overlay::law_empty_top_layer_changes_nothing(bottom);
    overlay::lemma_merge_one_more(top, bottom, e);
}

/// A list has the versions of its entries.
pub proof fn law_lists_have_the_versions_of_their_entries(
    entries: Seq<IndexEntry>,
    e: IndexEntry,
    vers: Seq<char>,
)
    ensures
        !overlay::has_version(Seq::empty(), vers),
        overlay::has_version(entries.push(e), vers) <==> overlay::has_version(entries, vers)
            || e.vers@ == vers,
        index::other_versions(entries.push(e), vers) == if e.vers@ == vers {
            index::other_versions(entries, vers)
        } else {
            index::other_versions(entries, vers).push(e)
        },
        index::other_versions(Seq::empty(), vers) == Seq::<IndexEntry>::empty(),
{
    overlay::lemma_has_version_push(entries, e, vers);
    reveal(Seq::filter);
    assert(entries.push(e).drop_last() =~= entries);
}

/// A request was carried out exactly where the status code is in the two-hundreds; what a
/// failure comes to names the status.
pub proof fn law_statuses_by_their_hundreds(
    code: u16,
    status: Seq<char>,
    answer: Result<Vec<u8>, RegistryError>,
    message: String,
)
    ensures
        remote::is_success(code) <==> code / 100 == 2,
        remote::status_message(status) == "upstream returned "@ + status,
        remote::is_network_error(
            Err::<Vec<u8>, RegistryError>(RegistryError::Network(message)),
            status,
        ) <==> message@ == status,
        remote::is_network_error(answer, status) ==> answer is Err,
{
}

/// What a registry says on the command line is seen as it is.
pub proof fn law_specs_are_seen_in_full(p: String, a: String, x: String)
    ensures
        (RegistrySpec::Local { path: None })@ == (RegistrySpecView::Local { path: None }),
        (RegistrySpec::Local { path: Some(p) })@ == (RegistrySpecView::Local { path: Some(p@) }),
        (RegistrySpec::Remote { api_url: a, index_url: x })@ == (RegistrySpecView::Remote {
            api_url: a@,
            index_url: x@,
        }),
{
}

/// What texts say on the command line: `local`, `local=` and a path, `remote=` and one
/// address or two with a comma between them, and two shortcuts for crates.io.
pub proof fn law_specs_are_told_so(p: Seq<char>, a: Seq<char>, b: Seq<char>)
    ensures
        layers::told("local"@) == Ok::<RegistrySpecView, Seq<char>>(
            RegistrySpecView::Local { path: None },
        ),
        layers::told("local="@ + p) == Ok::<RegistrySpecView, Seq<char>>(
            RegistrySpecView::Local { path: Some(p) },
        ),
        !a.contains(',') ==> layers::told("remote="@ + a) == Ok::<RegistrySpecView, Seq<char>>(
            RegistrySpecView::Remote { api_url: a, index_url: a },
        ),
        !a.contains(',') ==> layers::told("remote="@ + a + ","@ + b) == Ok::<
            RegistrySpecView,
            Seq<char>,
        >(RegistrySpecView::Remote { api_url: a, index_url: b }),
        layers::told("crates.io"@) == Ok::<RegistrySpecView, Seq<char>>(
            RegistrySpecView::Remote {
                api_url: "https://crates.io"@,
                index_url: "https://index.crates.io"@,
            },
        ),
        layers::told("crates-io"@) == layers::told("crates.io"@),
        layers::told("remote"@) == Err::<RegistrySpecView, Seq<char>>(
            "remote registry requires a URL"@,
        ),
{
    reveal_strlit("local");
    reveal_strlit("local=");
    reveal_strlit("remote");
    reveal_strlit("remote=");
    reveal_strlit("crates.io");
    reveal_strlit("crates-io");
    reveal_strlit(",");
    assert("local="@ =~= "local"@ + seq!['=']);
    assert("remote="@ =~= "remote"@ + seq!['=']);
    assert(","@ =~= seq![',']);
    assert(!"local"@.contains('='));
    assert(!"remote"@.contains('='));
    assert("local"@[0] == 'l' && "remote"@[0] == 'r' && "crates.io"@[0] == 'c' && "crates-io"@[0]
        == 'c');
    text::lemma_split_once_none("local"@, '=');
    text::lemma_split_once_none("remote"@, '=');
    text::lemma_split_once_of("local"@, '=', p);
    text::lemma_split_once_of("remote"@, '=', a);
    assert(("local="@ + p)[0] == 'l');
    assert(("remote="@ + a)[0] == 'r');
    if !a.contains(',') {
        text::lemma_split_once_none(a, ',');
        text::lemma_split_once_of(a, ',', b);
        let urls = a + seq![','] + b;
        assert("remote="@ + a + ","@ + b =~= "remote"@ + seq!['='] + urls);
        assert(("remote="@ + a + ","@ + b)[0] == 'r');
        text::lemma_split_once_of("remote"@, '=', urls);
    }
}

/// What says nothing on the command line: every other kind is refused by its name, with or
/// without a value.
pub proof fn law_other_specs_are_refused(kind: Seq<char>, value: Seq<char>)
    requires
        !kind.contains('='),
        kind != "local"@,
        kind != "remote"@,
    ensures
        kind != "crates.io"@ && kind != "crates-io"@ ==> layers::told(kind) == Err::<
            RegistrySpecView,
            Seq<char>,
        >("unknown registry type '"@ + kind + "'. Use: local, remote, or crates.io"@),
        layers::told(kind + seq!['='] + value) == Err::<RegistrySpecView, Seq<char>>(
            "unknown registry type '"@ + kind + "'. Use: local, remote, or crates.io"@,
        ),
{
    text::lemma_split_once_none(kind, '=');
    text::lemma_split_once_of(kind, '=', value);
    let s = kind + seq!['='] + value;
    reveal_strlit("crates.io");
    reveal_strlit("crates-io");
    assert(s[kind.len() as int] == '=');
    if s == "crates.io"@ {
        assert("crates.io"@[kind.len() as int] == '=');
    }
    if s == "crates-io"@ {
        assert("crates-io"@[kind.len() as int] == '=');
    }
}

/// How registries are written on the command line.
pub proof fn law_specs_are_shown_so(p: Seq<char>, a: Seq<char>, b: Seq<char>)
    ensures
        layers::shown(RegistrySpecView::Local { path: None }) == "local"@,
        layers::shown(RegistrySpecView::Local { path: Some(p) }) == "local="@ + p,
        layers::shown(RegistrySpecView::Remote { api_url: a, index_url: a }) == "remote="@ + a,
        layers::shown(
            RegistrySpecView::Remote {
                api_url: "https://crates.io"@,
                index_url: "https://index.crates.io"@,
            },
        ) == "crates.io"@,
        a != b && !(a == "https://crates.io"@ && b == "https://index.crates.io"@)
            ==> layers::shown(RegistrySpecView::Remote { api_url: a, index_url: b }) == "remote="@
            + a + ","@ + b,
{
    reveal_strlit("https://crates.io");
    reveal_strlit("https://index.crates.io");
    assert("https://crates.io"@.len() != "https://index.crates.io"@.len());
}

/// What a layer is made of: a remote registry has its addresses and takes no crates; a local
/// one has its directory, takes crates where it is the first and not all is read-only, and
/// then checks them unless that is switched off.
pub proof fn law_layers_are_made_so(
    specs: Seq<RegistrySpec>,
    options: RegistryBuildOptions,
    temp_dirs: Seq<String>,
    i: int,
)
    requires
        0 <= i < specs.len(),
    ensures
        specs[i] matches RegistrySpec::Remote { api_url, index_url } ==> (layers::layer(
            specs,
            options,
            temp_dirs,
            i,
        ) matches AnyRegistry::Remote(r) && r.api_url == api_url && r.index_url == index_url
            && !r.writable),
        specs[i] matches RegistrySpec::Local { path } ==> (layers::layer(
            specs,
            options,
            temp_dirs,
            i,
        ) matches AnyRegistry::Local(l) && {
            &&& path is Some ==> l.path == path->0
            &&& path is None ==> l.path == temp_dirs[layers::temp_dirs_wanted(
                specs.skip(i + 1),
            ) as int]
            &&& l.read_only <==> options.read_only || exists|j: int|
                0 <= j < i && #[trigger] specs[j] is Local
            &&& l.validate_metadata <==> !l.read_only && !options.permissive_publishing
        }),
{
}

/// The first registry lies on top of the others, and the last has nothing below it.
pub proof fn law_registries_lie_in_order(
    specs: Seq<RegistrySpec>,
    options: RegistryBuildOptions,
    temp_dirs: Seq<String>,
    i: int,
)
    requires
        0 <= i < specs.len(),
    ensures
        i + 1 == specs.len() ==> layers::stack(specs, options, temp_dirs, i) == layers::layer(
            specs,
            options,
            temp_dirs,
            i,
        ),
        i + 1 < specs.len() ==> (layers::stack(
            specs,
            options,
            temp_dirs,
            i,
        ) matches AnyRegistry::Overlay(o) && o.top == layers::layer(specs, options, temp_dirs, i)
            && o.bottom == layers::stack(specs, options, temp_dirs, i + 1)),
{
}

/// Every local registry without a path wants a temporary directory, and no other does.
pub proof fn law_temporary_directories_are_counted(
    specs: Seq<RegistrySpec>,
    p: String,
    a: String,
    x: String,
)
    ensures
        layers::temp_dirs_wanted(Seq::empty()) == 0,
        layers::temp_dirs_wanted(seq![RegistrySpec::Local { path: None }] + specs) == 1
            + layers::temp_dirs_wanted(specs),
        layers::temp_dirs_wanted(seq![RegistrySpec::Local { path: Some(p) }] + specs)
            == layers::temp_dirs_wanted(specs),
        layers::temp_dirs_wanted(seq![RegistrySpec::Remote { api_url: a, index_url: x }] + specs)
            == layers::temp_dirs_wanted(specs),
{
    assert((seq![RegistrySpec::Local { path: None }] + specs).skip(1) =~= specs);
    assert((seq![RegistrySpec::Local { path: Some(p) }] + specs).skip(1) =~= specs);
    assert((seq![RegistrySpec::Remote { api_url: a, index_url: x }] + specs).skip(1) =~= specs);
}

/// The upstream API is that of the lowest remote registry, and crates.io where there is
/// none.
pub proof fn law_lowest_remote_registry_is_upstream(specs: Seq<RegistrySpec>, k: int)
    ensures
        (forall|j: int| 0 <= j < specs.len() ==> #[trigger] specs[j] is Local)
            ==> layers::api_of_lowest(specs) == "https://crates.io"@,
        0 <= k < specs.len() && specs[k] is Remote && (forall|j: int|
            k < j < specs.len() ==> #[trigger] specs[j] is Local) ==> layers::api_of_lowest(specs)
            == specs[k]->api_url@,
    decreases specs.len(),
{
    if specs.len() > 0 {
        let rest = specs.drop_last();
        let n = specs.len() - 1;
        if specs[n] is Local {
            law_lowest_remote_registry_is_upstream(rest, k);
            assert forall|j: int| 0 <= j < rest.len() implies rest[j] == specs[j] by {}
            if forall|j: int| 0 <= j < specs.len() ==> #[trigger] specs[j] is Local {
                assert forall|j: int| 0 <= j < rest.len() implies #[trigger] rest[j] is Local by {
                    assert(specs[j] is Local);
                }
            }
            if 0 <= k < specs.len() && specs[k] is Remote && (forall|j: int|
                k < j < specs.len() ==> #[trigger] specs[j] is Local) {
                assert(rest[k] is Remote);
                assert forall|j: int| k < j < rest.len() implies #[trigger] rest[j] is Local by {
                    assert(specs[j] is Local);
                }
            }
        }
    }
}

/// The hosts come from both addresses of every remote registry, from the bottom up.
pub proof fn law_hosts_come_from_both_addresses(
    specs: Seq<RegistrySpec>,
    path: Option<String>,
    a: String,
    x: String,
)
    ensures
        layers::hosts_named(Seq::empty()) == Seq::<Option<Seq<char>>>::empty(),
        layers::hosts_named(seq![RegistrySpec::Local { path }] + specs) == layers::hosts_named(
            specs,
        ),
        layers::hosts_named(seq![RegistrySpec::Remote { api_url: a, index_url: x }] + specs)
            == layers::hosts_named(specs).push(outside::url_host_of(a@)).push(
            outside::url_host_of(x@),
        ),
{
    assert((seq![RegistrySpec::Local { path }] + specs).skip(1) =~= specs);
    assert((seq![RegistrySpec::Remote { api_url: a, index_url: x }] + specs).skip(1) =~= specs);
}

/// Hosts are intercepted in the order in which they are first named; with a host whose name
/// holds `crates.io` goes `static.crates.io`, at the end unless it was named.
pub proof fn law_hosts_are_intercepted_in_order(named: Seq<Option<Seq<char>>>, host: Seq<char>)
    ensures
        layers::each_once(Seq::empty()) == Seq::<Seq<char>>::empty(),
        layers::each_once(named.push(None)) == layers::each_once(named),
        layers::each_once(named.push(Some(host))) == if layers::each_once(named).contains(host) {
            layers::each_once(named)
        } else {
            layers::each_once(named).push(host)
        },
        layers::each_once(named).contains(host) && text::includes(host, "crates.io"@)
            ==> layers::hosts_to_intercept(named).contains("static.crates.io"@),
        (forall|i: int|
            0 <= i < layers::each_once(named).len() ==> !text::includes(
                #[trigger] layers::each_once(named)[i],
                "crates.io"@,
            )) ==> layers::hosts_to_intercept(named) == layers::each_once(named),
        layers::hosts_to_intercept(named) == layers::each_once(named)
            || layers::hosts_to_intercept(named) == layers::each_once(named).push(
            "static.crates.io"@,
        ),
{
    assert(named.push(None).drop_last() =~= named);
    assert(named.push(Some(host)).drop_last() =~= named);
    let hosts = layers::each_once(named);
    let all = layers::hosts_to_intercept(named);
    if hosts.contains(host) && text::includes(host, "crates.io"@) {
        let i = choose|i: int| 0 <= i < hosts.len() && hosts[i] == host;
        assert(text::includes(hosts[i], "crates.io"@));
        if !hosts.contains("static.crates.io"@) {
            assert(all[hosts.len() as int] == "static.crates.io"@);
        }
    }
}

/// What a registry laid over another answers: a failing top decides a lookup, then a failing
/// bottom, and otherwise both are merged; the bottom is asked for a crate file exactly where
/// the top does not have it. What is published goes to the top. A single layer answers for
/// itself.
pub proof fn law_one_over_another_answers_so(
    o: Box<overlay::OverlayRegistry<AnyRegistry, AnyRegistry>>,
    single: AnyRegistry,
    answer: spec_fn(AnyRegistry) -> Result<Seq<IndexEntry>, RegistryError>,
    file: spec_fn(AnyRegistry) -> Result<Vec<u8>, RegistryError>,
)
    requires
        !(single is Overlay),
    ensures
        layers::looked_up(single, answer) == answer(single),
        layers::downloaded(single, file) == file(single),
        walk::topmost(single) == single,
        walk::layer_count(single) == 1,
        walk::is_layer(single),
        !walk::is_layer(AnyRegistry::Overlay(o)),
        ({
            let whole = AnyRegistry::Overlay(o);
            let top = layers::looked_up(o.top, answer);
            let bottom = layers::looked_up(o.bottom, answer);
            &&& top is Err ==> layers::looked_up(whole, answer) == top
            &&& top is Ok && bottom is Err ==> layers::looked_up(whole, answer) == bottom
            &&& top is Ok && bottom is Ok ==> layers::looked_up(whole, answer) == Ok::<
                Seq<IndexEntry>,
                RegistryError,
            >(overlay::merged(top->Ok_0, bottom->Ok_0))
            &&& layers::downloaded(o.top, file) == Err::<Vec<u8>, RegistryError>(
                RegistryError::NotFound,
            ) ==> layers::downloaded(whole, file) == layers::downloaded(o.bottom, file)
            &&& layers::downloaded(o.top, file) != Err::<Vec<u8>, RegistryError>(
                RegistryError::NotFound,
            ) ==> layers::downloaded(whole, file) == layers::downloaded(o.top, file)
            &&& walk::topmost(whole) == walk::topmost(o.top)
            &&& walk::layer_count(whole) == walk::layer_count(o.top) + walk::layer_count(o.bottom)
        }),
{
}

/// What the errors of registries say.
pub proof fn law_registry_errors_speak(
    errors: Vec<String>,
    message: String,
    io: std::io::Error,
    json: serde_json::Error,
    own: String,
    s: Seq<char>,
)
    ensures
        RegistryError::NotFound.says(s) <==> s == "not found"@,
        RegistryError::NotSupported.says(s) <==> s == "operation not supported"@,
        RegistryError::Network(message).says(s) <==> s == "network error: "@ + message@,
        RegistryError::ValidationFailed(errors).says(s) <==> s == "validation failed: "@
            + text::join(text::views(errors@), "; "@),
        vstd::string::to_string_from_display_ensures(&io, own) ==> RegistryError::Storage(io).says(
            "storage error: "@ + own@,
        ),
        RegistryError::Storage(io).says(s) ==> exists|o: String| #[trigger]
            vstd::string::to_string_from_display_ensures(&io, o) && s == "storage error: "@ + o@,
        vstd::string::to_string_from_display_ensures(&json, own) ==> RegistryError::Serialization(
            json,
        ).says("serialization error: "@ + own@),
        RegistryError::Serialization(json).says(s) ==> exists|o: String| #[trigger]
            vstd::string::to_string_from_display_ensures(&json, o) && s == "serialization error: "@
                + o@,
{
    lemma_storage_speaks(io, own);
    lemma_serialization_speaks(json, own);
}

proof fn lemma_storage_speaks(e: std::io::Error, own: String)
    ensures
        vstd::string::to_string_from_display_ensures(&e, own) ==> RegistryError::Storage(e).says(
            "storage error: "@ + own@,
        ),
{
    let s = "storage error: "@ + own@;
    let error = RegistryError::Storage(e);
    if vstd::string::to_string_from_display_ensures(&e, own) {
        match error {
            RegistryError::Storage(f) => {
                assert(vstd::string::to_string_from_display_ensures(&f, own) && s
                    == "storage error: "@ + own@);
                assert(error.says(s));
            },
            _ => {},
        }
    }
}

proof fn lemma_serialization_speaks(e: serde_json::Error, own: String)
    ensures
        vstd::string::to_string_from_display_ensures(&e, own) ==> RegistryError::Serialization(
            e,
        ).says("serialization error: "@ + own@),
{
    let s = "serialization error: "@ + own@;
    let error = RegistryError::Serialization(e);
    if vstd::string::to_string_from_display_ensures(&e, own) {
        match error {
            RegistryError::Serialization(f) => {
                assert(vstd::string::to_string_from_display_ensures(&f, own) && s
                    == "serialization error: "@ + own@);
                assert(error.says(s));
            },
            _ => {},
        }
    }
}

} // verus!
