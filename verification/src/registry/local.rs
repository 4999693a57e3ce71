//! A registry in a directory: crate files beside each other, and an index below.
//!
//! Reading and writing files is left to the caller. The functions here say which files
//! to read and write, and what follows from what was read.

use vstd::prelude::*;
use vstd::utf8::*;

use crate::outside;
use crate::registry::checksum;
use crate::registry::checksum::checksum;
use crate::registry::index;
use crate::registry::index::{read_entries, write_entry, Reading, Writing};
use crate::registry::overlay;
use crate::registry::shard;
use crate::registry::shard::{is_shardable, shard};
use crate::registry::RegistryError;
use crate::text;
use crate::types::{IndexDependency, IndexEntry, PublishDependency, PublishMetadata};

verus! {

/// A registry in a directory.
pub struct LocalRegistry {
    /// The directory.
    pub path: String,
    /// Whether metadata must meet the requirements of crates.io to be published.
    pub validate_metadata: bool,
    /// Whether nothing can be published here.
    pub read_only: bool,
}

/// What publishing a crate comes to: the crate file to write, and the entry for the
/// index.
pub struct PublishPlan {
    /// The checksum of the crate file, which is the answer to the request.
    pub checksum: String,
    /// Where the crate file is written.
    pub crate_path: String,
    /// What the index is told.
    pub entry: IndexEntry,
}

/// A path continued by another, as Unix paths are: an absolute path replaces what it
/// would continue.
pub open spec fn joined(base: Seq<char>, part: Seq<char>) -> Seq<char> {
    if part.len() > 0 && part[0] == '/' {
        part
    } else if base.len() == 0 || base.last() == '/' {
        base + part
    } else {
        base + "/"@ + part
    }
}

/// Continues a path by another.
pub fn join_path(base: &str, part: &str) -> (path: String)
    ensures
        path@ == joined(base@, part@),
{
    let n = base.unicode_len();
    if !part.is_empty() && part.get_char(0) == '/' {
        String::from_str(part)
    } else if n == 0 || base.get_char(n - 1) == '/' {
        String::from_str(base).concat(part)
    } else {
        String::from_str(base).concat("/").concat(part)
    }
}

/// The name of a crate file.
pub open spec fn crate_file_name(crate_name: Seq<char>, version: Seq<char>) -> Seq<char> {
    crate_name + "-"@ + version + ".crate"@
}

/// Where the index file of a crate stands below `path`, given the crate's name in lower
/// case.
pub open spec fn index_file(path: Seq<char>, lower: Seq<char>) -> Seq<char> {
    let index = joined(path, "index"@);
    let (first, second) = shard::shard_of(lower);
    match second {
        Some(second) => joined(joined(joined(index, first), second), lower),
        None => joined(joined(index, first), lower),
    }
}

/// A dependency of a publish request as the index names it. A dependency that the
/// manifest renames is indexed under its new name, with the crate's name beside it.
pub open spec fn index_dependency(d: PublishDependency) -> IndexDependency {
    IndexDependency {
        name: match d.explicit_name_in_toml {
            Some(alias) => alias,
            None => d.name,
        },
        req: d.version_req,
        features: d.features,
        optional: d.optional,
        default_features: d.default_features,
        target: d.target,
        kind: d.kind,
        registry: d.registry,
        package: match d.explicit_name_in_toml {
            Some(_) => Some(d.name),
            None => None,
        },
        public: None,
        artifact: None,
        bindep_target: None,
        lib: None,
    }
}

/// Whether `entry` is the index entry of the crate that `m` describes.
pub open spec fn describes(entry: IndexEntry, m: PublishMetadata, cksum: Seq<char>) -> bool {
    &&& entry.name == m.name
    &&& entry.vers == m.vers
    &&& entry.deps@ == m.deps@.map_values(|d: PublishDependency| index_dependency(d))
    &&& entry.cksum@ == cksum
    &&& entry.features == m.features
    &&& entry.features2 is None
    &&& !entry.yanked
    &&& entry.links == m.links
    &&& entry.rust_version == m.rust_version
    &&& entry.v is None
}

/// Names a dependency as the index does.
fn to_index_dependency(d: PublishDependency) -> (i: IndexDependency)
    ensures
        i == index_dependency(d),
{
    let (name, package) = match d.explicit_name_in_toml {
        Some(alias) => (alias, Some(d.name)),
        None => (d.name, None),
    };
    IndexDependency {
        name,
        req: d.version_req,
        features: d.features,
        optional: d.optional,
        default_features: d.default_features,
        target: d.target,
        kind: d.kind,
        registry: d.registry,
        package,
        public: None,
        artifact: None,
        bindep_target: None,
        lib: None,
    }
}

/// What was read from a file, if it was there and could be read.
pub open spec fn read_text(file: Option<Result<String, std::io::Error>>) -> Option<Seq<char>> {
    match file {
        Some(Ok(content)) => Some(content@),
        _ => None,
    }
}

/// Makes the index entry of a crate.
pub fn to_index_entry(m: PublishMetadata, cksum: String) -> (entry: IndexEntry)
    ensures
        describes(entry, m, cksum@),
{
    let mut deps: Vec<IndexDependency> = Vec::new();
    let ghost all = m.deps@;
    let ghost name_all = |d: PublishDependency| index_dependency(d);
    for d in it: m.deps
        invariant
            it.seq() == all,
            name_all == (|d: PublishDependency| index_dependency(d)),
            deps@ == all.take(it.index()).map_values(name_all),
    {
        deps.push(to_index_dependency(d));
        assert(deps@ =~= all.take(it.index() + 1).map_values(name_all));
    }
    assert(all.take(all.len() as int) =~= all);
    IndexEntry {
        name: m.name,
        vers: m.vers,
        deps,
        cksum,
        features: m.features,
        features2: None,
        yanked: false,
        links: m.links,
        rust_version: m.rust_version,
        v: None,
    }
}

impl Clone for LocalRegistry {
    fn clone(&self) -> (copy: LocalRegistry)
        ensures
            copy == *self,
    {
        LocalRegistry {
            path: self.path.clone(),
            validate_metadata: self.validate_metadata,
            read_only: self.read_only,
        }
    }
}

impl LocalRegistry {
    /// A registry that crates can be published to.
    pub fn new(path: String, validate_metadata: bool) -> (registry: LocalRegistry)
        ensures
            registry == (LocalRegistry { path, validate_metadata, read_only: false }),
    {
        LocalRegistry { path, validate_metadata, read_only: false }
    }

    /// A registry that nothing can be published to.
    pub fn read_only(path: String) -> (registry: LocalRegistry)
        ensures
            registry == (LocalRegistry { path, validate_metadata: false, read_only: true }),
    {
        LocalRegistry { path, validate_metadata: false, read_only: true }
    }

    /// Where a crate file stands.
    pub fn crate_path(&self, crate_name: &str, version: &str) -> (path: String)
        ensures
            path@ == joined(self.path@, crate_file_name(crate_name@, version@)),
    {
        let file = String::from_str(crate_name).concat("-").concat(version).concat(".crate");
        join_path(self.path.as_str(), file.as_str())
    }

    /// The directory that holds the index.
    pub fn index_dir(&self) -> (path: String)
        ensures
            path@ == joined(self.path@, "index"@),
    {
        join_path(self.path.as_str(), "index")
    }

    /// Where the index file of a crate stands, given its name in lower case.
    pub fn index_file(&self, lower: &str) -> (path: String)
        requires
            shard::shardable(lower@),
        ensures
            path@ == index_file(self.path@, lower@),
    {
        let (first, second) = shard(lower);
        let index = self.index_dir();
        let dir = join_path(index.as_str(), first);
        match second {
            Some(second) => {
                let dir = join_path(dir.as_str(), second);
                join_path(dir.as_str(), lower)
            },
            None => join_path(dir.as_str(), lower),
        }
    }

    /// Where the index file of a crate stands.
    pub fn index_path(&self, crate_name: &str) -> (path: String)
        requires
            shard::shardable(outside::lowercase_of(crate_name@)),
        ensures
            path@ == index_file(self.path@, outside::lowercase_of(crate_name@)),
    {
        let lower = crate_name.to_lowercase();
        self.index_file(lower.as_str())
    }

    /// Where the index file of a crate stands, if its name has a place in an index.
    /// A name in ASCII has one.
    pub fn try_index_path(&self, crate_name: &str) -> (path: Option<String>)
        ensures
            match path {
                Some(p) => shard::shardable(outside::lowercase_of(crate_name@)) && p@ == index_file(
                    self.path@,
                    outside::lowercase_of(crate_name@),
                ),
                None => !shard::shardable(outside::lowercase_of(crate_name@)),
            },
            is_ascii_chars(crate_name@) && crate_name@.len() > 0 ==> (path matches Some(p) && p@
                == index_file(self.path@, text::ascii_lower(crate_name@))),
    {
        let lower = crate_name.to_lowercase();
        proof {
            if is_ascii_chars(crate_name@) && crate_name@.len() > 0 {
                text::lemma_lower_is_ascii(crate_name@);
                shard::law_ascii_names_have_a_place(text::ascii_lower(crate_name@));
            }
        }
        if is_shardable(lower.as_str()) {
            Some(self.index_path(crate_name))
        } else {
            None
        }
    }

    /// Answers a lookup from what was read from the index file: nothing where there is
    /// no such file.
    pub fn lookup<D: Fn(&str) -> Option<IndexEntry>>(
        &self,
        file: Option<Result<String, std::io::Error>>,
        read: D,
    ) -> (entries: Result<Vec<IndexEntry>, RegistryError>)
        requires
            forall|s: &str| #[trigger] call_requires(read, (s,)),
        ensures
            match file {
                None => entries matches Ok(found) && found@.len() == 0,
                Some(Err(e)) => entries == Err::<Vec<IndexEntry>, RegistryError>(
                    RegistryError::Storage(e),
                ),
                Some(Ok(content)) => entries matches Ok(found) && index::is_read(
                    found@,
                    content@,
                    read,
                ),
            },
    {
        match file {
            None => Ok(Vec::new()),
            Some(Err(e)) => Err(RegistryError::from(e)),
            Some(Ok(content)) => Ok(read_entries(content.as_str(), read)),
        }
    }

    /// Answers a download from what was read from the crate file.
    pub fn download(&self, file: Option<Result<Vec<u8>, std::io::Error>>) -> (data: Result<
        Vec<u8>,
        RegistryError,
    >)
        ensures
            data == match file {
                None => Err(RegistryError::NotFound),
                Some(Err(e)) => Err(RegistryError::Storage(e)),
                Some(Ok(d)) => Ok(d),
            },
    {
        match file {
            None => Err(RegistryError::NotFound),
            Some(Err(e)) => Err(RegistryError::from(e)),
            Some(Ok(d)) => Ok(d),
        }
    }

    /// Decides what becomes of a crate that is to be published.
    pub fn publish(&self, metadata: PublishMetadata, crate_data: &[u8]) -> (plan: Result<
        PublishPlan,
        RegistryError,
    >)
        ensures
            match plan {
                Ok(p) => {
                    &&& !self.read_only
                    &&& self.validate_metadata ==> metadata.publishable()
                    &&& p.checksum@ == checksum::checksum_of(crate_data@)
                    &&& p.checksum@ == checksum::hex(outside::sha256_of(crate_data@))
                    &&& p.entry.cksum@ == checksum::hex(outside::sha256_of(crate_data@))
                    &&& p.crate_path@ == joined(
                        self.path@,
                        crate_file_name(metadata.name@, metadata.vers@),
                    )
                    &&& describes(p.entry, metadata, checksum::checksum_of(crate_data@))
                },
                Err(RegistryError::NotFound) => self.read_only,
                Err(RegistryError::ValidationFailed(errors)) => {
                    &&& !self.read_only
                    &&& self.validate_metadata
                    &&& !metadata.publishable()
                    &&& text::views(errors@) == metadata.validation_errors()
                },
                Err(_) => false,
            },
    {
        if self.read_only {
            return Err(RegistryError::NotFound);
        }
        proof {
            crate::types::law_validation_is_exact(metadata);
        }
        if self.validate_metadata {
            let errors = metadata.validate();
            assert(text::views(errors@).len() == errors@.len());
            if !errors.is_empty() {
                return Err(RegistryError::ValidationFailed(errors));
            }
        }
        let sum = checksum(crate_data);
        let crate_path = self.crate_path(metadata.name.as_str(), metadata.vers.as_str());
        let entry = to_index_entry(metadata, sum.clone());
        Ok(PublishPlan { checksum: sum, crate_path, entry })
    }

    /// The index file after a version was published, from what was read from the file
    /// before, if it was there, and from the line that the entry was written as.
    pub fn update_index<D: Fn(&str) -> Option<IndexEntry>>(
        &self,
        file: Option<Result<String, std::io::Error>>,
        vers: &str,
        line: Result<String, serde_json::Error>,
        read: D,
    ) -> (after: Result<String, RegistryError>)
        requires
            forall|s: &str| #[trigger] call_requires(read, (s,)),
        ensures
            match (file, line) {
                (Some(Err(e)), _) => after == Err::<String, RegistryError>(
                    RegistryError::Storage(e),
                ),
                (_, Err(e)) => after == Err::<String, RegistryError>(
                    RegistryError::Serialization(e),
                ),
                (_, Ok(line)) => after matches Ok(content) && index::is_updated(
                    content@,
                    read_text(file),
                    vers@,
                    line@,
                    read,
                ),
            },
    {
        let before = match file {
            Some(Err(e)) => return Err(RegistryError::from(e)),
            Some(Ok(content)) => Some(content),
            None => None,
        };
        let line = match line {
            Ok(line) => line,
            Err(e) => return Err(RegistryError::from(e)),
        };
        let content = match &before {
            Some(content) => Some(content.as_str()),
            None => None,
        };
        assert(text::opt_str(content) == read_text(file));
        Ok(write_entry(content, vers, line, read))
    }
}

/// Two versions of a crate have different crate files.
pub proof fn law_versions_have_their_own_files(
    path: Seq<char>,
    crate_name: Seq<char>,
    v1: Seq<char>,
    v2: Seq<char>,
)
    requires
        v1 != v2,
    ensures
        joined(path, crate_file_name(crate_name, v1)) != joined(
            path,
            crate_file_name(crate_name, v2),
        ),
{
    let f1 = crate_file_name(crate_name, v1);
    let f2 = crate_file_name(crate_name, v2);
    reveal_strlit("-");
    let head = crate_name + "-"@;
    assert(f1[0] == head[0] && f2[0] == head[0]);
    if joined(path, f1) == joined(path, f2) {
        let p1 = joined(path, f1);
        let skip = p1.len() - f1.len();
        assert(p1.skip(skip) =~= f1);
        assert(p1.skip(skip) =~= f2);
        let n = head.len() as int;
        assert(v1 =~= f1.subrange(n, f1.len() - ".crate"@.len()));
        assert(v2 =~= f2.subrange(n, f2.len() - ".crate"@.len()));
    }
}

/// A version that begins with a number and a dot, as all versions of crates do: no hyphen
/// stands before its first dot.
pub open spec fn begins_with_number(version: Seq<char>) -> bool {
    match text::split_once(version, '.') {
        Some((number, _)) => !number.contains('-'),
        None => false,
    }
}

/// Two crates have different crate files, whatever their versions: the last hyphen before
/// the first dot tells name and version apart.
pub proof fn law_crates_have_their_own_files(
    path: Seq<char>,
    n1: Seq<char>,
    v1: Seq<char>,
    n2: Seq<char>,
    v2: Seq<char>,
)
    requires
        n1 != n2,
        !n1.contains('.') && !n2.contains('.'),
        n1.len() > 0 ==> n1[0] != '/',
        n2.len() > 0 ==> n2[0] != '/',
        begins_with_number(v1) && begins_with_number(v2),
    ensures
        joined(path, crate_file_name(n1, v1)) != joined(path, crate_file_name(n2, v2)),
{
    let f1 = crate_file_name(n1, v1);
    let f2 = crate_file_name(n2, v2);
    reveal_strlit("-");
    assert(f1[0] != '/') by {
        assert(f1[0] == (n1 + "-"@)[0]);
    }
    assert(f2[0] != '/') by {
        assert(f2[0] == (n2 + "-"@)[0]);
    }
    if joined(path, f1) == joined(path, f2) {
        let p = joined(path, f1);
        let skip = p.len() - f1.len();
        assert(p.skip(skip) =~= f1);
        assert(p.skip(skip) =~= f2);
        let d1 = lemma_first_dot(n1, v1);
        let d2 = lemma_first_dot(n2, v2);
        if d1 < d2 {
            assert(f2[d1] != '.');
        } else if d2 < d1 {
            assert(f1[d2] != '.');
        }
        let a = n1.len() as int;
        let b = n2.len() as int;
        if a < b {
            assert(f1[b] != '-');
        } else if b < a {
            assert(f2[a] != '-');
        }
        assert(f1.take(a) =~= n1);
        assert(f2.take(b) =~= n2);
    }
}

/// The first dot in the name of a crate file, and the last hyphen before it.
proof fn lemma_first_dot(n: Seq<char>, v: Seq<char>) -> (dot: int)
    requires
        !n.contains('.'),
        begins_with_number(v),
    ensures
        n.len() < dot < crate_file_name(n, v).len(),
        crate_file_name(n, v)[dot] == '.',
        crate_file_name(n, v)[n.len() as int] == '-',
        forall|k: int| 0 <= k < dot ==> #[trigger] crate_file_name(n, v)[k] != '.',
        forall|k: int| n.len() < k < dot ==> #[trigger] crate_file_name(n, v)[k] != '-',
{
    let f = crate_file_name(n, v);
    reveal_strlit("-");
    text::lemma_split_once_shape(v, '.');
    let (number, rest) = text::split_once(v, '.')->0;
    let dot = n.len() as int + 1 + number.len();
    assert(v =~= number + seq!['.'] + rest);
    assert(f[dot] == v[number.len() as int]);
    assert forall|k: int| 0 <= k < dot implies #[trigger] f[k] != '.' by {
        if k < n.len() {
            assert(f[k] == n[k]);
            assert(n.contains(n[k]));
        } else if k > n.len() {
            assert(f[k] == number[k - n.len() - 1]);
            assert(number.contains(number[k - n.len() - 1]));
        }
    }
    assert forall|k: int| n.len() < k < dot implies #[trigger] f[k] != '-' by {
        assert(f[k] == number[k - n.len() - 1]);
        assert(number.contains(number[k - n.len() - 1]));
    }
    dot
}

/// Two crates have different index files, unless their names are the same in lower case.
/// Names hold no slash.
pub proof fn law_crates_have_their_own_index_files(path: Seq<char>, a: Seq<char>, b: Seq<char>)
    requires
        shard::shardable(a),
        shard::shardable(b),
        !a.contains('/'),
        !b.contains('/'),
        a != b,
    ensures
        index_file(path, a) != index_file(path, b),
{
    reveal_strlit("/");
    let pa = index_file(path, a);
    let pb = index_file(path, b);
    lemma_index_file_ends(path, a);
    lemma_index_file_ends(path, b);
    if pa == pb {
        let n = pa.len() as int;
        if a.len() < b.len() {
            let k = n - a.len() - 1;
            assert(pa[k] == '/');
            assert(pb[k] == b[k - (n - b.len())]);
            assert(b.contains(b[k - (n - b.len())]));
        } else if b.len() < a.len() {
            let k = n - b.len() - 1;
            assert(pb[k] == '/');
            assert(pa[k] == a[k - (n - a.len())]);
            assert(a.contains(a[k - (n - a.len())]));
        } else {
            assert(pa.skip(n - a.len()) =~= a);
            assert(pb.skip(n - b.len()) =~= b);
        }
    }
}

/// An index file is called as the crate, in a directory of its own kind.
proof fn lemma_index_file_ends(path: Seq<char>, lower: Seq<char>)
    requires
        shard::shardable(lower),
        !lower.contains('/'),
    ensures
        exists|dir: Seq<char>| index_file(path, lower) == #[trigger] (dir + "/"@) + lower,
{
    reveal_strlit("/");
    reveal_strlit("1");
    reveal_strlit("2");
    reveal_strlit("3");
    let n = encode_utf8(lower).len();
    let index = joined(path, "index"@);
    let (first, second) = shard::shard_of(lower);
    if n == 3 {
        shard::lemma_cuts_at_start(lower);
        text::lemma_byte_slice_within(lower, 0, 1);
    }
    if n > 3 {
        shard::lemma_cuts_at_start(lower);
        text::lemma_byte_slice_within(lower, 0, 2);
        text::lemma_byte_slice_within(lower, 2, 4);
    }
    assert(first.len() > 0);
    assert(first.last() != '/') by {
        assert(first.contains(first.last()));
    }
    let dir = match second {
        Some(second) => {
            assert(second.len() > 0);
            assert(second.last() != '/') by {
                assert(second.contains(second.last()));
            }
            joined(joined(index, first), second)
        },
        None => joined(index, first),
    };
    assert(dir.len() > 0 && dir.last() != '/');
    if lower.len() > 0 {
        assert(lower.contains(lower[0]));
    }
    assert(index_file(path, lower) == (dir + "/"@) + lower);
}

/// The crate files of a registry after a crate was published.
pub open spec fn crates_after(
    crates: Map<Seq<char>, Seq<u8>>,
    path: Seq<char>,
    m: PublishMetadata,
    data: Seq<u8>,
) -> Map<Seq<char>, Seq<u8>> {
    crates.insert(joined(path, crate_file_name(m.name@, m.vers@)), data)
}

/// The index files of a registry after a version was published under the line `line`.
pub open spec fn indexes_after(
    indexes: Map<Seq<char>, Seq<char>>,
    path: Seq<char>,
    lower: Seq<char>,
    reading: Reading,
    vers: Seq<char>,
    line: Seq<char>,
) -> Map<Seq<char>, Seq<char>> {
    let file = index_file(path, lower);
    indexes.insert(file, index::file_after(contents(indexes, file), reading, vers, line))
}

/// What a file holds, if it is there.
pub open spec fn contents<T>(files: Map<Seq<char>, T>, file: Seq<char>) -> Option<T> {
    if files.dom().contains(file) {
        Some(files[file])
    } else {
        None
    }
}

/// What a lookup gives.
pub open spec fn looked_up(
    indexes: Map<Seq<char>, Seq<char>>,
    path: Seq<char>,
    lower: Seq<char>,
    reading: Reading,
) -> Seq<IndexEntry> {
    index::entries_before(contents(indexes, index_file(path, lower)), reading)
}

/// What a download gives.
pub open spec fn downloaded(
    crates: Map<Seq<char>, Seq<u8>>,
    path: Seq<char>,
    crate_name: Seq<char>,
    version: Seq<char>,
) -> Option<Seq<u8>> {
    contents(crates, joined(path, crate_file_name(crate_name, version)))
}

/// A published crate is there: its version can be downloaded as it was sent, and a
/// lookup gives its entry, last and once, behind the entries of the other versions.
pub proof fn law_published_crate_is_there(
    crates: Map<Seq<char>, Seq<u8>>,
    indexes: Map<Seq<char>, Seq<char>>,
    path: Seq<char>,
    m: PublishMetadata,
    data: Seq<u8>,
    lower: Seq<char>,
    reading: Reading,
    line: Seq<char>,
    entry: IndexEntry,
)
    requires
        index::lenient(reading),
        !line.contains('\n'),
        reading(line) == Some(entry),
    ensures
        downloaded(crates_after(crates, path, m, data), path, m.name@, m.vers@) == Some(data),
        looked_up(
            indexes_after(indexes, path, lower, reading, m.vers@, line),
            path,
            lower,
            reading,
        ) == index::other_versions(looked_up(indexes, path, lower, reading), m.vers@).push(entry),
{
    index::law_written_entry_is_read(
        contents(indexes, index_file(path, lower)),
        reading,
        m.vers@,
        line,
        entry,
    );
}

/// Whether an entry tells of the crate that `m` describes.
pub open spec fn tells_of(entry: IndexEntry, m: PublishMetadata, cksum: Seq<char>) -> bool {
    &&& entry.name@ == m.name@
    &&& entry.vers@ == m.vers@
    &&& entry.cksum@ == cksum
    &&& !entry.yanked
}

/// A published version is looked up once: a lookup under a name of the same lower case
/// gives what it gave before without that version, and then one entry that tells of the
/// crate. `entry` is what the index was told.
pub proof fn law_published_version_is_looked_up_once(
    indexes: Map<Seq<char>, Seq<char>>,
    path: Seq<char>,
    m: PublishMetadata,
    cksum: Seq<char>,
    entry: IndexEntry,
    lower: Seq<char>,
    writing: Writing,
    reading: Reading,
)
    requires
        index::lenient(reading),
        describes(entry, m, cksum),
        index::comes_back(entry, writing, reading),
    ensures
        ({
            let before = looked_up(indexes, path, lower, reading);
            let now = looked_up(
                indexes_after(indexes, path, lower, reading, m.vers@, writing(entry)),
                path,
                lower,
                reading,
            );
            &&& now.len() > 0
            &&& now.drop_last() == index::other_versions(before, m.vers@)
            &&& index::is_copy(now.last(), entry)
            &&& tells_of(now.last(), m, cksum)
            &&& overlay::is_last_and_only(now, now.last())
        }),
{
    let line = writing(entry);
    let back = reading(line)->0;
    let file = index_file(path, lower);
    let before = looked_up(indexes, path, lower, reading);
    let others = index::other_versions(before, m.vers@);
    index::law_written_entry_is_read(contents(indexes, file), reading, m.vers@, line, back);
    assert(others.push(back).drop_last() =~= others);
    overlay::lemma_filter_members(before, |e: IndexEntry| e.vers@ != m.vers@);
    assert forall|i: int| 0 <= i < others.len() implies (#[trigger] others.push(back)[i]).vers@
        != back.vers@ by {
        assert(others.contains(others[i]));
    }
}

/// A crate that was checked before it was published has a place in the index, and one of
/// its own.
pub proof fn law_checked_names_have_a_place(name: Seq<char>)
    requires
        crate::types::good_name(name),
    ensures
        is_ascii_chars(name),
        shard::shardable(text::ascii_lower(name)),
        !text::ascii_lower(name).contains('/'),
        !name.contains('.') && !name.contains('/'),
{
    assert forall|i: int| 0 <= i < name.len() implies text::is_name_char(
        #[trigger] name[i],
    ) by {}
    assert(is_ascii_chars(name));
    text::lemma_lower_is_ascii(name);
    let lower = text::ascii_lower(name);
    shard::law_ascii_names_have_a_place(lower);
    if lower.contains('/') {
        let i = choose|i: int| 0 <= i < lower.len() && lower[i] == '/';
        assert(text::is_name_char(name[i]));
        assert(lower[i] == text::ascii_lower_char(name[i]));
    }
}

/// Publishing leaves the crate files of other crates alone.
pub proof fn law_publishing_leaves_other_crates(
    crates: Map<Seq<char>, Seq<u8>>,
    path: Seq<char>,
    m: PublishMetadata,
    data: Seq<u8>,
    other: Seq<char>,
    version: Seq<char>,
)
    requires
        other != m.name@,
        !other.contains('.') && !m.name@.contains('.'),
        other.len() > 0 ==> other[0] != '/',
        m.name@.len() > 0 ==> m.name@[0] != '/',
        begins_with_number(version) && begins_with_number(m.vers@),
    ensures
        downloaded(crates_after(crates, path, m, data), path, other, version) == downloaded(
            crates,
            path,
            other,
            version,
        ),
{
    law_crates_have_their_own_files(path, m.name@, m.vers@, other, version);
}

/// Publishing leaves the rest alone: the files of the other versions of the crate, and
/// what is looked up of a crate of another name.
pub proof fn law_publishing_leaves_the_rest(
    crates: Map<Seq<char>, Seq<u8>>,
    indexes: Map<Seq<char>, Seq<char>>,
    path: Seq<char>,
    m: PublishMetadata,
    data: Seq<u8>,
    lower: Seq<char>,
    reading: Reading,
    line: Seq<char>,
    version: Seq<char>,
    other: Seq<char>,
)
    requires
        version != m.vers@,
        shard::shardable(lower),
        shard::shardable(other),
        !lower.contains('/'),
        !other.contains('/'),
        lower != other,
    ensures
        downloaded(crates_after(crates, path, m, data), path, m.name@, version) == downloaded(
            crates,
            path,
            m.name@,
            version,
        ),
        looked_up(
            indexes_after(indexes, path, lower, reading, m.vers@, line),
            path,
            other,
            reading,
        ) == looked_up(indexes, path, other, reading),
{
    law_versions_have_their_own_files(path, m.name@, m.vers@, version);
    law_crates_have_their_own_index_files(path, lower, other);
}

} // verus!
