//! Index files: one JSON object per line, one line per version of the crate.
//!
//! How a line is read and an entry written is not fixed here. Both are given by the
//! caller, as a function from a line to the entry it holds, or from an entry to its
//! line.

use vstd::prelude::*;

use crate::text;
use crate::text::{join_strings, same_text, split_lines};
use crate::types::{IndexDependency, IndexEntry};

verus! {

/// A way to read lines: the entry that a line holds, if it holds one.
pub type Reading = spec_fn(Seq<char>) -> Option<IndexEntry>;

/// A way to write entries: the line of an entry.
pub type Writing = spec_fn(IndexEntry) -> Seq<char>;

/// Whether a dependency comes back from a line as it was written: all but the fields that
/// are not written.
pub open spec fn is_dependency_copy(back: IndexDependency, d: IndexDependency) -> bool {
    &&& back.name@ == d.name@
    &&& back.req@ == d.req@
    &&& text::views(back.features@) == text::views(d.features@)
    &&& back.optional == d.optional
    &&& back.default_features == d.default_features
    &&& text::opt_view(back.target) == text::opt_view(d.target)
    &&& text::opt_view(back.kind) == text::opt_view(d.kind)
    &&& text::opt_view(back.registry) == text::opt_view(d.registry)
    &&& text::opt_view(back.package) == text::opt_view(d.package)
    &&& back.public is None
    &&& back.artifact is None
    &&& back.bindep_target is None
    &&& back.lib is None
}

/// Whether an entry comes back from a line as it was written.
pub open spec fn is_copy(back: IndexEntry, e: IndexEntry) -> bool {
    &&& back.name@ == e.name@
    &&& back.vers@ == e.vers@
    &&& back.deps@.len() == e.deps@.len()
    &&& forall|i: int|
        0 <= i < e.deps@.len() ==> is_dependency_copy(#[trigger] back.deps@[i], e.deps@[i])
    &&& back.cksum@ == e.cksum@
    &&& back.features@ == e.features@
    &&& (back.features2 is Some <==> e.features2 is Some)
    &&& e.features2 is Some ==> back.features2->0@ == e.features2->0@
    &&& back.yanked == e.yanked
    &&& text::opt_view(back.links) == text::opt_view(e.links)
    &&& text::opt_view(back.rust_version) == text::opt_view(e.rust_version)
    &&& back.v == e.v
}

/// Whether an entry comes back from the line it is written as.
pub open spec fn comes_back(e: IndexEntry, writing: Writing, reading: Reading) -> bool {
    &&& !writing(e).contains('\n')
    &&& reading(writing(e)) is Some
    &&& is_copy(reading(writing(e))->0, e)
}

/// Whether every entry of a list comes back from its line.
pub open spec fn all_come_back(
    entries: Seq<IndexEntry>,
    writing: Writing,
    reading: Reading,
) -> bool {
    forall|i: int| 0 <= i < entries.len() ==> comes_back(#[trigger] entries[i], writing, reading)
}

/// What `read` may give for a line.
pub open spec fn may_read<D: Fn(&str) -> Option<IndexEntry>>(
    read: D,
    line: Seq<char>,
    entry: Option<IndexEntry>,
) -> bool {
    exists|s: &str| s@ == line && #[trigger] call_ensures(read, (s,), entry)
}

/// What `read` may give for each of a list of lines.
pub open spec fn may_read_all<D: Fn(&str) -> Option<IndexEntry>>(
    read: D,
    lines: Seq<Seq<char>>,
    found: Seq<Option<IndexEntry>>,
) -> bool {
    &&& found.len() == lines.len()
    &&& forall|i: int|
        0 <= i < lines.len() ==> may_read(read, #[trigger] lines[i], #[trigger] found[i])
}

/// Whether `read` gives for every line what `reading` says.
pub open spec fn reads_as<D: Fn(&str) -> Option<IndexEntry>>(read: D, reading: Reading) -> bool {
    forall|s: &str, entry: Option<IndexEntry>| #[trigger]
        call_ensures(read, (s,), entry) ==> entry == reading(s@)
}

/// The lines that hold something.
pub open spec fn filled_lines(content: Seq<char>) -> Seq<Seq<char>> {
    text::lines(content).filter(|line: Seq<char>| line.len() > 0)
}

/// The entries that were found, in order.
pub open spec fn present(found: Seq<Option<IndexEntry>>) -> Seq<IndexEntry>
    decreases found.len(),
{
    if found.len() == 0 {
        Seq::empty()
    } else {
        match found.last() {
            Some(entry) => present(found.drop_last()).push(entry),
            None => present(found.drop_last()),
        }
    }
}

/// The entries of an index file. A line that holds no entry is passed over.
pub open spec fn entries_of(content: Seq<char>, reading: Reading) -> Seq<IndexEntry> {
    present(filled_lines(content).map_values(reading))
}

/// Whether a line stays when a version is written anew: it does unless it holds an
/// entry of that version.
pub open spec fn stays(found: Option<IndexEntry>, vers: Seq<char>) -> bool {
    match found {
        Some(entry) => entry.vers@ != vers,
        None => true,
    }
}

/// The lines that stay, in order.
pub open spec fn staying(
    lines: Seq<Seq<char>>,
    found: Seq<Option<IndexEntry>>,
    vers: Seq<char>,
) -> Seq<Seq<char>>
    decreases lines.len(),
{
    if lines.len() == 0 {
        Seq::empty()
    } else {
        let before = staying(lines.drop_last(), found.drop_last(), vers);
        if stays(found.last(), vers) {
            before.push(lines.last())
        } else {
            before
        }
    }
}

/// Lines as they stand in a file.
pub open spec fn file_of(lines: Seq<Seq<char>>) -> Seq<char> {
    text::join(lines, seq!['\n']) + seq!['\n']
}

/// The lines of a file that may not be there yet.
pub open spec fn lines_before(content: Option<Seq<char>>) -> Seq<Seq<char>> {
    match content {
        Some(text) => text::lines(text),
        None => Seq::empty(),
    }
}

/// The index file after `line` was written for the version `vers`.
pub open spec fn file_after(
    content: Option<Seq<char>>,
    reading: Reading,
    vers: Seq<char>,
    line: Seq<char>,
) -> Seq<char> {
    let lines = lines_before(content);
    file_of(staying(lines, lines.map_values(reading), vers).push(line))
}

/// Reads every line of a list.
fn read_all<D: Fn(&str) -> Option<IndexEntry>>(lines: &Vec<&str>, read: &D) -> (found: Vec<
    Option<IndexEntry>,
>)
    requires
        forall|s: &str| #[trigger] call_requires(*read, (s,)),
    ensures
        may_read_all(*read, lines@.map_values(|p: &str| p@), found@),
{
    let mut found: Vec<Option<IndexEntry>> = Vec::new();
    let ghost texts = lines@.map_values(|p: &str| p@);
    let mut i: usize = 0;
    while i < lines.len()
        invariant
            texts == lines@.map_values(|p: &str| p@),
            i <= lines@.len(),
            found@.len() == i,
            forall|s: &str| #[trigger] call_requires(*read, (s,)),
            forall|k: int|
                0 <= k < i ==> may_read(*read, #[trigger] texts[k], #[trigger] found@[k]),
        decreases lines@.len() - i,
    {
        let entry = read(lines[i]);
        assert(may_read(*read, texts[i as int], entry));
        found.push(entry);
        i = i + 1;
    }
    found
}

/// Keeps the entries that were found.
pub fn keep_present(found: Vec<Option<IndexEntry>>) -> (entries: Vec<IndexEntry>)
    ensures
        entries@ == present(found@),
{
    let mut entries: Vec<IndexEntry> = Vec::new();
    let ghost all = found@;
    for entry in it: found
        invariant
            it.seq() == all,
            entries@ == present(all.take(it.index())),
    {
        proof {
            assert(all.take(it.index() + 1).drop_last() =~= all.take(it.index()));
        }
        if let Some(e) = entry {
            entries.push(e);
        }
    }
    assert(all.take(all.len() as int) =~= all);
    entries
}

/// Keeps the lines that hold something.
fn keep_filled<'a>(lines: Vec<&'a str>) -> (kept: Vec<&'a str>)
    ensures
        kept@.map_values(|p: &str| p@) == lines@.map_values(|p: &str| p@).filter(
            |line: Seq<char>| line.len() > 0,
        ),
{
    let ghost texts = lines@.map_values(|p: &str| p@);
    let ghost held = |line: Seq<char>| line.len() > 0;
    let mut kept: Vec<&'a str> = Vec::new();
    let mut i: usize = 0;
    while i < lines.len()
        invariant
            texts == lines@.map_values(|p: &str| p@),
            i <= lines@.len(),
            held == (|line: Seq<char>| line.len() > 0),
            kept@.map_values(|p: &str| p@) == texts.take(i as int).filter(held),
        decreases lines@.len() - i,
    {
        let ghost before = kept@.map_values(|p: &str| p@);
        let line = lines[i];
        if !line.is_empty() {
            kept.push(line);
            assert(kept@.map_values(|p: &str| p@) =~= before.push(line@));
        }
        proof {
            let now = texts.take(i + 1);
            reveal(Seq::filter);
            assert(now.drop_last() =~= texts.take(i as int));
            assert(now.last() == line@);
        }
        i = i + 1;
    }
    assert(texts.take(texts.len() as int) =~= texts);
    kept
}

/// Whether `entries` are the entries of an index file, where `read` reads the lines.
pub open spec fn is_read<D: Fn(&str) -> Option<IndexEntry>>(
    entries: Seq<IndexEntry>,
    content: Seq<char>,
    read: D,
) -> bool {
    &&& exists|found: Seq<Option<IndexEntry>>| #[trigger]
        may_read_all(read, filled_lines(content), found) && entries == present(found)
    &&& forall|reading: Reading| #[trigger]
        reads_as(read, reading) ==> entries == entries_of(content, reading)
}

/// Reads the entries of an index file. Empty lines and lines that hold no entry are
/// passed over.
pub fn read_entries<D: Fn(&str) -> Option<IndexEntry>>(content: &str, read: D) -> (entries: Vec<
    IndexEntry,
>)
    requires
        forall|s: &str| #[trigger] call_requires(read, (s,)),
    ensures
        is_read(entries@, content@, read),
{
    let lines = keep_filled(split_lines(content));
    let found = read_all(&lines, &read);
    proof {
        assert(may_read_all(read, filled_lines(content@), found@));
        assert forall|reading: Reading| #[trigger] reads_as(read, reading) implies present(found@)
            == entries_of(content@, reading) by {
            lemma_reading(read, reading, filled_lines(content@), found@);
        }
    }
    keep_present(found)
}

/// A steady reader finds what its reading says.
proof fn lemma_reading<D: Fn(&str) -> Option<IndexEntry>>(
    read: D,
    reading: Reading,
    lines: Seq<Seq<char>>,
    found: Seq<Option<IndexEntry>>,
)
    requires
        reads_as(read, reading),
        may_read_all(read, lines, found),
    ensures
        found == lines.map_values(reading),
{
    assert forall|i: int| 0 <= i < lines.len() implies found[i] == reading(lines[i]) by {
        assert(may_read(read, lines[i], found[i]));
    }
    assert(found =~= lines.map_values(reading));
}

/// Keeps the lines that stay when the version `vers` is written anew, given what each
/// line holds.
pub fn keep_others(lines: &Vec<&str>, found: &Vec<Option<IndexEntry>>, vers: &str) -> (kept: Vec<
    String,
>)
    requires
        lines@.len() == found@.len(),
    ensures
        text::views(kept@) == staying(lines@.map_values(|p: &str| p@), found@, vers@),
{
    let ghost texts = lines@.map_values(|p: &str| p@);
    let mut kept: Vec<String> = Vec::new();
    let mut i: usize = 0;
    while i < lines.len()
        invariant
            texts == lines@.map_values(|p: &str| p@),
            lines@.len() == found@.len(),
            i <= lines@.len(),
            text::views(kept@) == staying(texts.take(i as int), found@.take(i as int), vers@),
        decreases lines@.len() - i,
    {
        let ghost before = text::views(kept@);
        let stay = match &found[i] {
            Some(entry) => !same_text(entry.vers.as_str(), vers),
            None => true,
        };
        if stay {
            kept.push(String::from_str(lines[i]));
            assert(text::views(kept@) =~= before.push(texts[i as int]));
        }
        proof {
            assert(texts.take(i + 1).drop_last() =~= texts.take(i as int));
            assert(found@.take(i + 1).drop_last() =~= found@.take(i as int));
        }
        i = i + 1;
    }
    proof {
        assert(texts.take(texts.len() as int) =~= texts);
        assert(found@.take(found@.len() as int) =~= found@);
    }
    kept
}

/// Writes lines as they stand in a file.
pub fn write_lines(lines: &Vec<String>) -> (content: String)
    ensures
        content@ == file_of(text::views(lines@)),
{
    proof {
        reveal_strlit("\n");
        assert("\n"@ =~= seq!['\n']);
    }
    join_strings(lines, "\n").concat("\n")
}

/// Whether `after` is the index file after `line` was written for the version `vers`,
/// where `read` reads the lines.
pub open spec fn is_updated<D: Fn(&str) -> Option<IndexEntry>>(
    after: Seq<char>,
    content: Option<Seq<char>>,
    vers: Seq<char>,
    line: Seq<char>,
    read: D,
) -> bool {
    &&& exists|found: Seq<Option<IndexEntry>>| #[trigger]
        may_read_all(read, lines_before(content), found) && after == file_of(
            staying(lines_before(content), found, vers).push(line),
        )
    &&& forall|reading: Reading| #[trigger]
        reads_as(read, reading) ==> after == file_after(content, reading, vers, line)
}

/// The index file after `line` was written for the version `vers`: the lines that hold
/// another version, or no entry at all, stay as they are, and the new line comes last.
pub fn write_entry<D: Fn(&str) -> Option<IndexEntry>>(
    content: Option<&str>,
    vers: &str,
    line: String,
    read: D,
) -> (after: String)
    requires
        forall|s: &str| #[trigger] call_requires(read, (s,)),
    ensures
        is_updated(after@, text::opt_str(content), vers@, line@, read),
{
    let ghost before = lines_before(text::opt_str(content));
    let lines: Vec<&str> = match content {
        Some(c) => split_lines(c),
        None => Vec::new(),
    };
    assert(lines@.map_values(|p: &str| p@) =~= before);
    let found = read_all(&lines, &read);
    proof {
        assert(may_read_all(read, before, found@));
        assert forall|reading: Reading| #[trigger] reads_as(read, reading) implies found@
            == before.map_values(reading) by {
            lemma_reading(read, reading, before, found@);
        }
    }
    let mut kept = keep_others(&lines, &found, vers);
    let ghost others = text::views(kept@);
    kept.push(line);
    assert(text::views(kept@) =~= others.push(line@));
    write_lines(&kept)
}

/// A reading that passes over empty lines and does not mind a carriage return at the
/// end of a line, as JSON does not.
pub open spec fn lenient(reading: Reading) -> bool {
    &&& reading(Seq::empty()) is None
    &&& forall|line: Seq<char>| #[trigger] reading(text::strip_cr(line)) == reading(line)
}

/// The entries of an index file that may not be there yet.
pub open spec fn entries_before(content: Option<Seq<char>>, reading: Reading) -> Seq<IndexEntry> {
    match content {
        Some(text) => entries_of(text, reading),
        None => Seq::empty(),
    }
}

/// The entries of every version but one.
pub open spec fn other_versions(entries: Seq<IndexEntry>, vers: Seq<char>) -> Seq<IndexEntry> {
    entries.filter(|e: IndexEntry| e.vers@ != vers)
}

/// What is written is read back: after a version was written, the index file holds the
/// entries of all other versions, in the order they had, and then the new entry. No
/// other entry of that version is left.
pub proof fn law_written_entry_is_read(
    content: Option<Seq<char>>,
    reading: Reading,
    vers: Seq<char>,
    line: Seq<char>,
    entry: IndexEntry,
)
    requires
        lenient(reading),
        !line.contains('\n'),
        reading(line) == Some(entry),
    ensures
        entries_of(file_after(content, reading, vers, line), reading) == other_versions(
            entries_before(content, reading),
            vers,
        ).push(entry),
{
    let lines = lines_before(content);
    let found = lines.map_values(reading);
    let kept = staying(lines, found, vers);
    let all = kept.push(line);
    assert forall|i: int| 0 <= i < lines.len() implies !(#[trigger] lines[i]).contains('\n') by {
        if let Some(c) = content {
            lemma_lines_hold_no_feed(c, i);
        }
    }
    lemma_staying_from(lines, found, vers);
    assert forall|i: int| 0 <= i < all.len() implies !(#[trigger] all[i]).contains('\n') by {
        if i < kept.len() {
            assert(kept.contains(kept[i]));
            let k = choose|k: int| 0 <= k < lines.len() && lines[k] == kept[i];
            assert(!lines[k].contains('\n'));
        }
    }
    law_lines_are_read(all, reading);
    assert(all.map_values(reading) =~= kept.map_values(reading).push(Some(entry)));
    assert(kept.map_values(reading).push(Some(entry)).drop_last() =~= kept.map_values(reading));
    lemma_staying_entries(lines, reading, vers);
    if let Some(c) = content {
        lemma_empty_lines_hold_nothing(lines, reading);
    } else {
        assert(lines.map_values(reading) =~= Seq::empty());
    }
}

/// Entries written one per line are read back, in order: the file has one line for each,
/// and each line holds a copy of its entry.
pub proof fn law_written_entries_are_read(
    entries: Seq<IndexEntry>,
    writing: Writing,
    reading: Reading,
)
    requires
        lenient(reading),
        all_come_back(entries, writing, reading),
    ensures
        ({
            let content = file_of(entries.map_values(writing));
            let back = entries_of(content, reading);
            &&& content.last() == '\n'
            &&& entries.len() > 0 ==> text::lines(content).len() == entries.len()
            &&& back.len() == entries.len()
            &&& forall|i: int| 0 <= i < entries.len() ==> is_copy(#[trigger] back[i], entries[i])
            &&& forall|i: int|
                0 <= i < entries.len() ==> reading(#[trigger] text::lines(content)[i]) == Some(
                    back[i],
                )
        }),
{
    let lines = entries.map_values(writing);
    let content = file_of(lines);
    assert forall|i: int| 0 <= i < lines.len() implies !(#[trigger] lines[i]).contains('\n') by {
        assert(comes_back(entries[i], writing, reading));
    }
    law_lines_are_read(lines, reading);
    let back = Seq::new(entries.len(), |i: int| reading(writing(entries[i]))->0);
    let found = lines.map_values(reading);
    assert forall|i: int| 0 <= i < found.len() implies #[trigger] found[i] == Some(back[i]) by {
        assert(comes_back(entries[i], writing, reading));
    }
    lemma_all_present(found, back);
    assert forall|i: int| 0 <= i < entries.len() implies reading(
        #[trigger] text::lines(content)[i],
    ) == Some(back[i]) by {
        assert(text::lines(content)[i] == text::strip_cr(lines[i]));
        assert(found[i] == Some(back[i]));
    }
}

/// Where every line holds an entry, all of them are found.
proof fn lemma_all_present(found: Seq<Option<IndexEntry>>, entries: Seq<IndexEntry>)
    requires
        found.len() == entries.len(),
        forall|i: int| 0 <= i < found.len() ==> #[trigger] found[i] == Some(entries[i]),
    ensures
        present(found) == entries,
    decreases found.len(),
{
    if found.len() > 0 {
        lemma_all_present(found.drop_last(), entries.drop_last());
        assert(found.last() == Some(entries.last()));
        assert(entries.drop_last().push(entries.last()) =~= entries);
    } else {
        assert(entries =~= Seq::empty());
    }
}

/// A file made of lines is read back: it ends with a line feed, has these lines, but for
/// carriage returns at their ends, and holds what they hold, in order.
pub proof fn law_lines_are_read(lines: Seq<Seq<char>>, reading: Reading)
    requires
        lenient(reading),
        forall|i: int| 0 <= i < lines.len() ==> !(#[trigger] lines[i]).contains('\n'),
    ensures
        file_of(lines).last() == '\n',
        lines.len() > 0 ==> text::lines(file_of(lines)) == lines.map_values(
            |l: Seq<char>| text::strip_cr(l),
        ),
        entries_of(file_of(lines), reading) == present(lines.map_values(reading)),
{
    if lines.len() == 0 {
        let content = file_of(lines);
        assert(content =~= Seq::<char>::empty() + seq!['\n'] + Seq::<char>::empty());
        text::lemma_split_once_of(Seq::empty(), '\n', Seq::empty());
        text::lemma_split_once_none(Seq::empty(), '\n');
        assert(text::lines(Seq::empty()) =~= Seq::<Seq<char>>::empty());
        assert(text::lines(content) =~= seq![text::strip_cr(Seq::empty())]);
        lemma_empty_lines_hold_nothing(text::lines(content), reading);
        assert(text::lines(content).map_values(reading) =~= seq![None::<IndexEntry>]);
        assert(seq![None::<IndexEntry>].drop_last() =~= Seq::empty());
        assert(lines.map_values(reading) =~= Seq::empty());
    } else {
        lemma_lines_of_file(lines);
        let stripped = lines.map_values(|l: Seq<char>| text::strip_cr(l));
        lemma_empty_lines_hold_nothing(stripped, reading);
        assert(stripped.map_values(reading) =~= lines.map_values(reading)) by {
            assert forall|i: int| 0 <= i < lines.len() implies reading(stripped[i]) == reading(
                lines[i],
            ) by {
                assert(stripped[i] == text::strip_cr(lines[i]));
            }
        }
    }
}

/// No line of a text holds a line feed.
proof fn lemma_lines_hold_no_feed(s: Seq<char>, i: int)
    requires
        0 <= i < text::lines(s).len(),
    ensures
        !text::lines(s)[i].contains('\n'),
    decreases s.len(),
{
    text::lemma_split_once_shape(s, '\n');
    match text::split_once(s, '\n') {
        Some((line, rest)) => {
            if i == 0 {
                let first = text::strip_cr(line);
                assert forall|k: int| 0 <= k < first.len() implies first[k] != '\n' by {
                    assert(line.contains(line[k]));
                }
            } else {
                lemma_lines_hold_no_feed(rest, i - 1);
            }
        },
        None => {},
    }
}

/// A line that stays was there before.
proof fn lemma_staying_from(
    lines: Seq<Seq<char>>,
    found: Seq<Option<IndexEntry>>,
    vers: Seq<char>,
)
    requires
        found.len() == lines.len(),
    ensures
        forall|line: Seq<char>| #[trigger]
            staying(lines, found, vers).contains(line) ==> lines.contains(line),
    decreases lines.len(),
{
    if lines.len() > 0 {
        let before = staying(lines.drop_last(), found.drop_last(), vers);
        lemma_staying_from(lines.drop_last(), found.drop_last(), vers);
        assert forall|line: Seq<char>| #[trigger]
            staying(lines, found, vers).contains(line) implies lines.contains(line) by {
            let now = staying(lines, found, vers);
            let k = choose|k: int| 0 <= k < now.len() && now[k] == line;
            if k < before.len() {
                assert(before[k] == line);
                assert(before.contains(line));
                let j = choose|j: int|
                    0 <= j < lines.drop_last().len() && lines.drop_last()[j] == line;
                assert(lines[j] == line);
            } else {
                assert(line == lines.last());
                assert(lines[lines.len() - 1] == line);
            }
        }
    }
}

/// A file written from lines has these lines, but for carriage returns at their ends.
proof fn lemma_lines_of_file(lines: Seq<Seq<char>>)
    requires
        lines.len() > 0,
        forall|i: int| 0 <= i < lines.len() ==> !(#[trigger] lines[i]).contains('\n'),
    ensures
        text::lines(file_of(lines)) == lines.map_values(|l: Seq<char>| text::strip_cr(l)),
    decreases lines.len(),
{
    let feed = seq!['\n'];
    let first = lines[0];
    let rest = lines.skip(1);
    let stripped = lines.map_values(|l: Seq<char>| text::strip_cr(l));
    if lines.len() == 1 {
        assert(file_of(lines) =~= first + feed + Seq::<char>::empty());
        text::lemma_split_once_of(first, '\n', Seq::empty());
        text::lemma_split_once_none(Seq::empty(), '\n');
        assert(text::lines(Seq::empty()) =~= Seq::<Seq<char>>::empty());
        assert(text::lines(file_of(lines)) =~= stripped);
    } else {
        assert forall|i: int| 0 <= i < rest.len() implies !(#[trigger] rest[i]).contains('\n') by {
            assert(rest[i] == lines[i + 1]);
        }
        lemma_lines_of_file(rest);
        assert(file_of(lines) =~= first + feed + file_of(rest));
        text::lemma_split_once_of(first, '\n', file_of(rest));
        assert(stripped =~= seq![text::strip_cr(first)] + rest.map_values(
            |l: Seq<char>| text::strip_cr(l),
        ));
    }
}

/// Where an empty line holds nothing, passing over empty lines loses nothing.
proof fn lemma_empty_lines_hold_nothing(lines: Seq<Seq<char>>, reading: Reading)
    requires
        reading(Seq::empty()) is None,
    ensures
        present(lines.filter(|line: Seq<char>| line.len() > 0).map_values(reading)) == present(
            lines.map_values(reading),
        ),
    decreases lines.len(),
{
    let held = |line: Seq<char>| line.len() > 0;
    reveal(Seq::filter);
    if lines.len() > 0 {
        let before = lines.drop_last();
        let line = lines.last();
        lemma_empty_lines_hold_nothing(before, reading);
        assert(lines.map_values(reading).drop_last() =~= before.map_values(reading));
        let kept = before.filter(held);
        if held(line) {
            assert(lines.filter(held) =~= kept.push(line));
            assert(kept.push(line).map_values(reading) =~= kept.map_values(reading).push(
                reading(line),
            ));
            assert(kept.map_values(reading).push(reading(line)).drop_last() =~= kept.map_values(
                reading,
            ));
        } else {
            assert(line =~= Seq::empty());
            assert(lines.filter(held) =~= kept);
        }
    } else {
        assert(lines.filter(held).map_values(reading) =~= lines.map_values(reading));
    }
}

/// The lines that stay hold the entries of the other versions.
proof fn lemma_staying_entries(lines: Seq<Seq<char>>, reading: Reading, vers: Seq<char>)
    ensures
        present(staying(lines, lines.map_values(reading), vers).map_values(reading))
            == other_versions(present(lines.map_values(reading)), vers),
    decreases lines.len(),
{
    let other = |e: IndexEntry| e.vers@ != vers;
    let found = lines.map_values(reading);
    reveal(Seq::filter);
    if lines.len() > 0 {
        let before = lines.drop_last();
        let line = lines.last();
        lemma_staying_entries(before, reading, vers);
        assert(found.drop_last() =~= before.map_values(reading));
        let kept = staying(before, found.drop_last(), vers);
        let read_before = present(found.drop_last());
        if let Some(e) = reading(line) {
            assert(present(found) == read_before.push(e));
            assert(read_before.push(e).drop_last() =~= read_before);
        }
        if stays(reading(line), vers) {
            assert(kept.push(line).map_values(reading) =~= kept.map_values(reading).push(
                reading(line),
            ));
            assert(kept.map_values(reading).push(reading(line)).drop_last() =~= kept.map_values(
                reading,
            ));
        }
    } else {
        assert(staying(lines, found, vers).map_values(reading) =~= found);
    }
}

} // verus!
