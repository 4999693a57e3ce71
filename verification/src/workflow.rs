//! What holds from a publish request to the next lookup.

use vstd::prelude::*;
use vstd::utf8::*;

use crate::endpoints;
use crate::endpoints::Reply;
use crate::registry::checksum;
use crate::registry::index;
use crate::registry::index::{Reading, Writing};
use crate::registry::layers;
use crate::registry::layers::{AnyRegistry, RegistryBuildOptions, RegistrySpec};
use crate::registry::local;
use crate::registry::overlay;
use crate::registry::remote;
use crate::registry::RegistryError;
use crate::routing;
use crate::routing::RouteView;
use crate::text;
use crate::types;
use crate::types::{IndexEntry, PublishMetadata};

verus! {

/// Whether the last line of a text tells of the crate that `m` describes, and no other
/// line holds its version.
pub open spec fn tells_last_of(
    content: Seq<char>,
    reading: Reading,
    m: PublishMetadata,
    cksum: Seq<char>,
) -> bool {
    let lines = text::lines(content);
    &&& lines.len() > 0
    &&& reading(lines.last()) is Some
    &&& local::tells_of(reading(lines.last())->0, m, cksum)
    &&& forall|i: int|
        0 <= i < lines.len() - 1 ==> (reading(#[trigger] lines[i]) matches Some(e) ==> e.vers@
            != m.vers@)
}

/// What is written last is served last: where an entry that tells of a crate stands last in
/// a list, and no other has its version, the same holds of the lines.
proof fn lemma_served_last(
    entries: Seq<IndexEntry>,
    writing: Writing,
    reading: Reading,
    m: PublishMetadata,
    cksum: Seq<char>,
)
    requires
        index::lenient(reading),
        index::all_come_back(entries, writing, reading),
        entries.len() > 0,
        local::tells_of(entries.last(), m, cksum),
        overlay::is_last_and_only(entries, entries.last()),
    ensures
        tells_last_of(index::file_of(entries.map_values(writing)), reading, m, cksum),
{
    let content = index::file_of(entries.map_values(writing));
    let back = index::entries_of(content, reading);
    let lines = text::lines(content);
    let n = entries.len() - 1;
    index::law_written_entries_are_read(entries, writing, reading);
    assert(reading(lines[n]) == Some(back[n]));
    assert(index::is_copy(back[n], entries[n]));
    assert forall|i: int| 0 <= i < n implies (reading(#[trigger] lines[i]) matches Some(e)
        ==> e.vers@ != m.vers@) by {
        assert(index::is_copy(back[i], entries[i]));
        assert(entries[i].vers@ != entries.last().vers@);
    }
}

/// What a lookup through all layers gives after a crate was published to the local registry
/// on top: an entry that tells of the crate, last, and no other of its version.
proof fn lemma_looked_up_last(
    specs: Seq<RegistrySpec>,
    options: RegistryBuildOptions,
    temp_dirs: Seq<String>,
    answer: spec_fn(AnyRegistry) -> Result<Seq<IndexEntry>, RegistryError>,
    indexes: Map<Seq<char>, Seq<char>>,
    m: PublishMetadata,
    cksum: Seq<char>,
    entry: IndexEntry,
    writing: Writing,
    reading: Reading,
)
    requires
        specs.len() > 0,
        specs[0] is Local,
        local::describes(entry, m, cksum),
        index::lenient(reading),
        index::comes_back(entry, writing, reading),
        answer(layers::layer(specs, options, temp_dirs, 0)) == Ok::<
            Seq<IndexEntry>,
            RegistryError,
        >(after_publishing(specs, options, temp_dirs, indexes, m, entry, writing, reading)),
        layers::looked_up(layers::stack(specs, options, temp_dirs, 0), answer) is Ok,
    ensures
        ({
            let all = layers::looked_up(layers::stack(specs, options, temp_dirs, 0), answer)->Ok_0;
            &&& all.len() > 0
            &&& local::tells_of(all.last(), m, cksum)
            &&& overlay::is_last_and_only(all, all.last())
        }),
{
    let top_layer = layers::layer(specs, options, temp_dirs, 0);
    let dir = top_layer->Local_0.path@;
    let lower = text::ascii_lower(m.name@);
    let before = local::looked_up(indexes, dir, lower, reading);
    let top = after_publishing(specs, options, temp_dirs, indexes, m, entry, writing, reading);
    let published = top.last();
    local::law_published_version_is_looked_up_once(
        indexes,
        dir,
        m,
        cksum,
        entry,
        lower,
        writing,
        reading,
    );
    assert(layers::looked_up(top_layer, answer) == answer(top_layer));
    if specs.len() > 1 {
        let below = layers::looked_up(layers::stack(specs, options, temp_dirs, 1), answer)->Ok_0;
        assert(top =~= index::other_versions(before, published.vers@).push(published));
        overlay::law_published_version_covers_the_others(before, below, published, published);
    }
}

/// What a lookup that found something is answered with, where lines are written steadily.
proof fn lemma_written_reply<W: Fn(&IndexEntry) -> Option<String>>(
    looked: Result<Vec<IndexEntry>, RegistryError>,
    writing: Writing,
    write: W,
    reply: Reply,
)
    requires
        looked is Ok,
        looked->Ok_0@.len() > 0,
        endpoints::writes_as(write, writing),
        endpoints::answers_lookup(reply, looked, write),
    ensures
        reply.as_response() == endpoints::json_response(
            index::file_of(looked->Ok_0@.map_values(writing)),
        ),
{
}

/// A published crate is served at once: a publish request that the local registry on top
/// has carried out shows in the next lookup of the crate. Under the path that a client of
/// the index asks for, the answer has status 200, its last line tells of the crate that was
/// published, with the checksum of the crate file, and no other line holds its version.
/// The layers below only have to answer. `entry` is what the index was told, `looked` what
/// the lookup gave, and `reply` the answer to it; lines are written and read steadily, and
/// what is written is read back.
pub proof fn law_published_crate_is_served<W: Fn(&IndexEntry) -> Option<String>>(
    specs: Seq<RegistrySpec>,
    options: RegistryBuildOptions,
    temp_dirs: Seq<String>,
    answer: spec_fn(AnyRegistry) -> Result<Seq<IndexEntry>, RegistryError>,
    indexes: Map<Seq<char>, Seq<char>>,
    m: PublishMetadata,
    data: Seq<u8>,
    entry: IndexEntry,
    writing: Writing,
    reading: Reading,
    write: W,
    looked: Result<Vec<IndexEntry>, RegistryError>,
    reply: Reply,
)
    requires
        specs.len() > 0,
        specs[0] is Local,
        routing::has_clear_path(text::ascii_lower(m.name@)),
        local::describes(entry, m, checksum::checksum_of(data)),
        index::lenient(reading),
        index::comes_back(entry, writing, reading),
        answer(layers::layer(specs, options, temp_dirs, 0)) == Ok::<
            Seq<IndexEntry>,
            RegistryError,
        >(after_publishing(specs, options, temp_dirs, indexes, m, entry, writing, reading)),
        looked is Ok,
        layers::looked_up(layers::stack(specs, options, temp_dirs, 0), answer) == Ok::<
            Seq<IndexEntry>,
            RegistryError,
        >(looked->Ok_0@),
        index::all_come_back(looked->Ok_0@, writing, reading),
        endpoints::writes_as(write, writing),
        endpoints::answers_lookup(reply, looked, write),
    ensures
        routing::route_of("PUT"@, "/api/v1/crates/new"@) is Publish,
        ({
            let lower = text::ascii_lower(m.name@);
            let path = remote::index_path_of(lower);
            &&& routing::routable("GET"@, path)
            &&& routing::route_of("GET"@, path) == (RouteView::Lookup { crate_name: lower })
            &&& text::ascii_lower(lower) == lower
        }),
        exists|content: Seq<char>|
            reply.as_response() == endpoints::json_response(content) && #[trigger] tells_last_of(
                content,
                reading,
                m,
                checksum::checksum_of(data),
            ),
{
    let cksum = checksum::checksum_of(data);
    let lower = text::ascii_lower(m.name@);
    routing::law_publishing_has_one_address("PUT"@, "/api/v1/crates/new"@);
    routing::law_index_paths_are_understood(lower);
    text::lemma_lower_stays(m.name@);
    lemma_looked_up_last(
        specs,
        options,
        temp_dirs,
        answer,
        indexes,
        m,
        cksum,
        entry,
        writing,
        reading,
    );
    lemma_served_last(looked->Ok_0@, writing, reading, m, cksum);
    lemma_written_reply(looked, writing, write, reply);
}

/// What the local registry on top gives in a lookup of a crate after the crate was
/// published to it.
pub open spec fn after_publishing(
    specs: Seq<RegistrySpec>,
    options: RegistryBuildOptions,
    temp_dirs: Seq<String>,
    indexes: Map<Seq<char>, Seq<char>>,
    m: PublishMetadata,
    entry: IndexEntry,
    writing: Writing,
    reading: Reading,
) -> Seq<IndexEntry> {
    let dir = layers::layer(specs, options, temp_dirs, 0)->Local_0.path@;
    let lower = text::ascii_lower(m.name@);
    local::looked_up(
        local::indexes_after(indexes, dir, lower, reading, m.vers@, writing(entry)),
        dir,
        lower,
        reading,
    )
}

/// A published crate file is served as it was sent: a publish request that the local
/// registry on top has carried out shows in the next download. Under the path that a client
/// asks for, the answer has status 200 and holds the bytes of the crate file. The layers
/// below are not asked. `got` is what the download through all layers gave, and `reply` the
/// answer to it.
pub proof fn law_published_crate_file_is_served(
    specs: Seq<RegistrySpec>,
    options: RegistryBuildOptions,
    temp_dirs: Seq<String>,
    answer: spec_fn(AnyRegistry) -> Result<Vec<u8>, RegistryError>,
    crates: Map<Seq<char>, Seq<u8>>,
    m: PublishMetadata,
    data: Seq<u8>,
    got: Result<Vec<u8>, RegistryError>,
    reply: Reply,
)
    requires
        specs.len() > 0,
        specs[0] is Local,
        !m.name@.contains('/'),
        !m.vers@.contains('/'),
        m.vers@ != "download"@,
        answer(layers::layer(specs, options, temp_dirs, 0)) matches Ok(file) && Some(file@)
            == file_after_publishing(specs, options, temp_dirs, crates, m, data),
        got == layers::downloaded(layers::stack(specs, options, temp_dirs, 0), answer),
        endpoints::answers_download(reply, got),
    ensures
        routing::routable("GET"@, routing::download_path(m.name@, m.vers@)),
        routing::route_of("GET"@, routing::download_path(m.name@, m.vers@)) == (
        RouteView::Download { crate_name: m.name@, version: m.vers@ }),
        got matches Ok(file) && file@ == data,
        reply.as_response() == endpoints::plain_response(200, "application/gzip"@, data),
{
    routing::law_download_paths_are_understood(m.name@, m.vers@);
    layers::law_topmost_layer_with_a_crate_decides(specs, options, temp_dirs, answer, 0, 0);
}

/// What the crate file of a crate holds in the local registry on top after the crate was
/// published to it.
pub open spec fn file_after_publishing(
    specs: Seq<RegistrySpec>,
    options: RegistryBuildOptions,
    temp_dirs: Seq<String>,
    crates: Map<Seq<char>, Seq<u8>>,
    m: PublishMetadata,
    data: Seq<u8>,
) -> Option<Seq<u8>> {
    let dir = layers::layer(specs, options, temp_dirs, 0)->Local_0.path@;
    local::downloaded(local::crates_after(crates, dir, m, data), dir, m.name@, m.vers@)
}

/// A crate that was checked before it was published has a path that is not taken for
/// another.
pub proof fn law_checked_names_have_a_clear_path(name: Seq<char>)
    requires
        types::good_name(name),
    ensures
        routing::has_clear_path(text::ascii_lower(name)),
{
    local::law_checked_names_have_a_place(name);
    text::lemma_lower_is_ascii(name);
    let lower = text::ascii_lower(name);
    assert forall|i: int| 0 <= i < lower.len() implies lower[i] != '/' by {
        assert(lower.contains(lower[i]));
    }
}

} // verus!
