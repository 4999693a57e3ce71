//! Which registries make up the overlay, how they are told on the command line, and how
//! they are laid over each other.

use vstd::prelude::*;

use crate::outside;
use crate::registry::local::LocalRegistry;
use crate::registry::overlay;
use crate::registry::overlay::OverlayRegistry;
use crate::registry::remote::RemoteRegistry;
use crate::registry::RegistryError;
use crate::text;
use crate::text::{cut, has_part, same_text};
use crate::types::IndexEntry;

verus! {

/// A registry, as it is told.
#[derive(Debug)]
pub enum RegistrySpec {
    /// A registry in a directory; without a path, in a temporary one.
    Local { path: Option<String> },
    /// A registry somewhere else, to read from.
    Remote { api_url: String, index_url: String },
}

/// What a `RegistrySpec` says.
pub enum RegistrySpecView {
    Local { path: Option<Seq<char>> },
    Remote { api_url: Seq<char>, index_url: Seq<char> },
}

impl View for RegistrySpec {
    type V = RegistrySpecView;

    open spec fn view(&self) -> RegistrySpecView {
        match *self {
            RegistrySpec::Local { path } => RegistrySpecView::Local { path: text::opt_view(path) },
            RegistrySpec::Remote { api_url, index_url } => RegistrySpecView::Remote {
                api_url: api_url@,
                index_url: index_url@,
            },
        }
    }
}

/// The registry of crates.io.
pub open spec fn crates_io_view() -> RegistrySpecView {
    RegistrySpecView::Remote { api_url: "https://crates.io"@, index_url: "https://index.crates.io"@ }
}

/// A registry written as on the command line.
pub open spec fn shown(v: RegistrySpecView) -> Seq<char> {
    match v {
        RegistrySpecView::Local { path: None } => "local"@,
        RegistrySpecView::Local { path: Some(p) } => "local="@ + p,
        RegistrySpecView::Remote { api_url, index_url } => if api_url == index_url {
            "remote="@ + api_url
        } else if v == crates_io_view() {
            "crates.io"@
        } else {
            "remote="@ + api_url + ","@ + index_url
        },
    }
}

/// What a text says on the command line: a shortcut for crates.io, or the kind of a
/// registry, with what follows the first equals sign. A remote registry has the address
/// of its API and, behind a comma, that of its index; one address stands for both.
pub open spec fn told(s: Seq<char>) -> Result<RegistrySpecView, Seq<char>> {
    let (kind, value) = match text::split_once(s, '=') {
        Some((kind, value)) => (kind, Some(value)),
        None => (s, None),
    };
    if s == "crates.io"@ || s == "crates-io"@ {
        Ok(crates_io_view())
    } else if kind == "local"@ {
        Ok(RegistrySpecView::Local { path: value })
    } else if kind == "remote"@ {
        match value {
            None => Err("remote registry requires a URL"@),
            Some(urls) => match text::split_once(urls, ',') {
                Some((api_url, index_url)) => Ok(RegistrySpecView::Remote { api_url, index_url }),
                None => Ok(RegistrySpecView::Remote { api_url: urls, index_url: urls }),
            },
        }
    } else {
        Err("unknown registry type '"@ + kind + "'. Use: local, remote, or crates.io"@)
    }
}

impl Clone for RegistrySpec {
    fn clone(&self) -> (copy: RegistrySpec)
        ensures
            copy == *self,
    {
        match self {
            RegistrySpec::Local { path } => RegistrySpec::Local {
                path: match path {
                    Some(p) => Some(p.clone()),
                    None => None,
                },
            },
            RegistrySpec::Remote { api_url, index_url } => RegistrySpec::Remote {
                api_url: api_url.clone(),
                index_url: index_url.clone(),
            },
        }
    }
}

impl RegistrySpec {
    /// The registry of crates.io.
    pub fn crates_io() -> (made: RegistrySpec)
        ensures
            made@ == crates_io_view(),
    {
        RegistrySpec::Remote {
            api_url: String::from_str("https://crates.io"),
            index_url: String::from_str("https://index.crates.io"),
        }
    }

    /// A registry in a directory.
    pub fn local(path: &str) -> (made: RegistrySpec)
        ensures
            made@ == (RegistrySpecView::Local { path: Some(path@) }),
    {
        RegistrySpec::Local { path: Some(String::from_str(path)) }
    }

    /// A registry in a temporary directory.
    pub fn local_temp() -> (made: RegistrySpec)
        ensures
            made@ == (RegistrySpecView::Local { path: None }),
    {
        RegistrySpec::Local { path: None }
    }

    /// A registry somewhere else.
    pub fn remote(api_url: &str, index_url: &str) -> (made: RegistrySpec)
        ensures
            made@ == (RegistrySpecView::Remote { api_url: api_url@, index_url: index_url@ }),
    {
        RegistrySpec::Remote {
            api_url: String::from_str(api_url),
            index_url: String::from_str(index_url),
        }
    }

    /// Writes a registry as on the command line.
    pub fn to_string(&self) -> (s: String)
        ensures
            s@ == shown(self@),
    {
        match self {
            RegistrySpec::Local { path: None } => String::from_str("local"),
            RegistrySpec::Local { path: Some(p) } => String::from_str("local=").concat(p.as_str()),
            RegistrySpec::Remote { api_url, index_url } => {
                if same_text(api_url.as_str(), index_url.as_str()) {
                    String::from_str("remote=").concat(api_url.as_str())
                } else if same_text(api_url.as_str(), "https://crates.io") && same_text(
                    index_url.as_str(),
                    "https://index.crates.io",
                ) {
                    String::from_str("crates.io")
                } else {
                    String::from_str("remote=").concat(api_url.as_str()).concat(",").concat(
                        index_url.as_str(),
                    )
                }
            },
        }
    }

    /// Reads a registry from the command line.
    pub fn from_str(s: &str) -> (read: Result<RegistrySpec, String>)
        ensures
            match read {
                Ok(t) => told(s@) == Ok::<RegistrySpecView, Seq<char>>(t@),
                Err(message) => told(s@) == Err::<RegistrySpecView, Seq<char>>(message@),
            },
    {
        if same_text(s, "crates.io") || same_text(s, "crates-io") {
            return Ok(RegistrySpec::crates_io());
        }
        let (kind, value) = match cut(s, '=') {
            Some((kind, value)) => (kind, Some(value)),
            None => (s, None),
        };
        if same_text(kind, "local") {
            match value {
                Some(path) => Ok(RegistrySpec::local(path)),
                None => Ok(RegistrySpec::local_temp()),
            }
        } else if same_text(kind, "remote") {
            match value {
                None => Err(String::from_str("remote registry requires a URL")),
                Some(urls) => match cut(urls, ',') {
                    Some((api_url, index_url)) => Ok(RegistrySpec::remote(api_url, index_url)),
                    None => Ok(RegistrySpec::remote(urls, urls)),
                },
            }
        } else {
            Err(
                String::from_str("unknown registry type '").concat(kind).concat(
                    "'. Use: local, remote, or crates.io",
                ),
            )
        }
    }
}

impl std::str::FromStr for RegistrySpec {
    type Err = String;

    fn from_str(s: &str) -> (read: Result<RegistrySpec, String>)
        ensures
            match read {
                Ok(t) => told(s@) == Ok::<RegistrySpecView, Seq<char>>(t@),
                Err(message) => told(s@) == Err::<RegistrySpecView, Seq<char>>(message@),
            },
    {
        RegistrySpec::from_str(s)
    }
}

/// What is shown is told: a registry written as on the command line is read back as it
/// was, unless the address of its API holds a comma.
pub proof fn law_shown_spec_is_told(v: RegistrySpecView)
    requires
        v matches RegistrySpecView::Remote { api_url, .. } ==> !api_url.contains(','),
    ensures
        told(shown(v)) == Ok::<RegistrySpecView, Seq<char>>(v),
{
    reveal_strlit("local");
    reveal_strlit("local=");
    reveal_strlit("remote");
    reveal_strlit("remote=");
    reveal_strlit("crates.io");
    reveal_strlit("crates-io");
    reveal_strlit(",");
    let s = shown(v);
    assert("local="@ =~= "local"@ + seq!['=']);
    assert("remote="@ =~= "remote"@ + seq!['=']);
    assert(","@ =~= seq![',']);
    assert(!"local"@.contains('='));
    assert(!"remote"@.contains('='));
    assert("local"@[0] != "remote"@[0]);
    match v {
        RegistrySpecView::Local { path: None } => {
            text::lemma_split_once_none(s, '=');
            assert(s[0] != "crates.io"@[0] && s[0] != "crates-io"@[0]);
        },
        RegistrySpecView::Local { path: Some(p) } => {
            text::lemma_split_once_of("local"@, '=', p);
            assert(s[0] != "crates.io"@[0] && s[0] != "crates-io"@[0]);
        },
        RegistrySpecView::Remote { api_url, index_url } => {
            if api_url == index_url {
                assert(s[0] != "crates.io"@[0] && s[0] != "crates-io"@[0]);
                text::lemma_split_once_of("remote"@, '=', api_url);
                text::lemma_split_once_none(api_url, ',');
            } else if v != crates_io_view() {
                assert(s[0] != "crates.io"@[0] && s[0] != "crates-io"@[0]);
                let urls = api_url + seq![','] + index_url;
                assert(s =~= "remote"@ + seq!['='] + urls);
                text::lemma_split_once_of("remote"@, '=', urls);
                text::lemma_split_once_of(api_url, ',', index_url);
            }
        },
    }
}

/// How to build a registry.
#[derive(Debug, Clone, Copy)]
pub struct RegistryBuildOptions {
    /// Whether metadata is not checked when a crate is published.
    pub permissive_publishing: bool,
    /// Whether nothing can be published at all.
    pub read_only: bool,
}

impl Default for RegistryBuildOptions {
    fn default() -> (options: RegistryBuildOptions)
        ensures
            options == (RegistryBuildOptions { permissive_publishing: false, read_only: false }),
    {
        RegistryBuildOptions { permissive_publishing: false, read_only: false }
    }
}

/// A registry of any kind.
pub enum AnyRegistry {
    Local(LocalRegistry),
    Remote(RemoteRegistry),
    Overlay(Box<OverlayRegistry<AnyRegistry, AnyRegistry>>),
}

impl Clone for AnyRegistry {
    fn clone(&self) -> (copy: AnyRegistry)
        ensures
            copy == *self,
        decreases self,
    {
        match self {
            AnyRegistry::Local(local) => AnyRegistry::Local(local.clone()),
            AnyRegistry::Remote(remote) => AnyRegistry::Remote(remote.clone()),
            AnyRegistry::Overlay(layers) => AnyRegistry::Overlay(
                Box::new(
                    OverlayRegistry { top: layers.top.clone(), bottom: layers.bottom.clone() },
                ),
            ),
        }
    }
}

/// What was built.
pub struct BuiltRegistry {
    /// All layers, one over the other.
    pub registry: AnyRegistry,
    /// The hosts of the remote registries, whose traffic is to be intercepted.
    pub upstream_hosts: Vec<String>,
    /// The temporary directories in use. They must be kept.
    pub temp_dirs: Vec<String>,
}

/// Whether a registry is to live in a temporary directory.
pub open spec fn wants_temp_dir(specs: RegistrySpec) -> bool {
    specs matches RegistrySpec::Local { path } && path is None
}

/// How many of the registries are to live in temporary directories.
pub open spec fn temp_dirs_wanted(specs: Seq<RegistrySpec>) -> nat
    decreases specs.len(),
{
    if specs.len() == 0 {
        0
    } else {
        temp_dirs_wanted(specs.skip(1)) + if wants_temp_dir(specs[0]) {
            1nat
        } else {
            0nat
        }
    }
}

/// Whether the registry at `i` is the first local one.
pub open spec fn is_topmost_local(specs: Seq<RegistrySpec>, i: int) -> bool {
    &&& specs[i] is Local
    &&& forall|j: int| 0 <= j < i ==> !(#[trigger] specs[j] is Local)
}

/// The layer that the registry at `i` becomes. Only the first local registry can be
/// published to. The temporary directories are handed out from the bottom up.
pub open spec fn layer(
    specs: Seq<RegistrySpec>,
    options: RegistryBuildOptions,
    temp_dirs: Seq<String>,
    i: int,
) -> AnyRegistry {
    match specs[i] {
        RegistrySpec::Local { path } => {
            let path = match path {
                Some(p) => p,
                None => temp_dirs[temp_dirs_wanted(specs.skip(i + 1)) as int],
            };
            let open = is_topmost_local(specs, i) && !options.read_only;
            AnyRegistry::Local(
                LocalRegistry {
                    path,
                    validate_metadata: open && !options.permissive_publishing,
                    read_only: !open,
                },
            )
        },
        RegistrySpec::Remote { api_url, index_url } => AnyRegistry::Remote(
            RemoteRegistry { index_url, api_url, writable: false },
        ),
    }
}

/// The layers from `i` on, each over the ones that follow it.
pub open spec fn stack(
    specs: Seq<RegistrySpec>,
    options: RegistryBuildOptions,
    temp_dirs: Seq<String>,
    i: int,
) -> AnyRegistry
    decreases specs.len() - i,
{
    if i + 1 >= specs.len() {
        layer(specs, options, temp_dirs, i)
    } else {
        AnyRegistry::Overlay(
            Box::new(
                OverlayRegistry {
                    top: layer(specs, options, temp_dirs, i),
                    bottom: stack(specs, options, temp_dirs, i + 1),
                },
            ),
        )
    }
}

/// The hosts that the addresses of the remote registries name, from the bottom up.
pub open spec fn hosts_named(specs: Seq<RegistrySpec>) -> Seq<Option<Seq<char>>>
    decreases specs.len(),
{
    if specs.len() == 0 {
        Seq::empty()
    } else {
        let below = hosts_named(specs.skip(1));
        match specs[0] {
            RegistrySpec::Remote { api_url, index_url } => below.push(
                outside::url_host_of(api_url@),
            ).push(outside::url_host_of(index_url@)),
            RegistrySpec::Local { .. } => below,
        }
    }
}

/// The hosts that are named, each once, in the order in which they are first named.
pub open spec fn each_once(named: Seq<Option<Seq<char>>>) -> Seq<Seq<char>>
    decreases named.len(),
{
    if named.len() == 0 {
        Seq::empty()
    } else {
        let before = each_once(named.drop_last());
        match named.last() {
            Some(host) => if before.contains(host) {
                before
            } else {
                before.push(host)
            },
            None => before,
        }
    }
}

/// The hosts to intercept. With a host of crates.io goes the one that serves its files.
pub open spec fn hosts_to_intercept(named: Seq<Option<Seq<char>>>) -> Seq<Seq<char>> {
    let hosts = each_once(named);
    let of_crates_io = exists|i: int|
        0 <= i < hosts.len() && text::includes(#[trigger] hosts[i], "crates.io"@);
    if of_crates_io && !hosts.contains("static.crates.io"@) {
        hosts.push("static.crates.io"@)
    } else {
        hosts
    }
}

/// The API of the lowest remote registry, and crates.io where there is none.
pub open spec fn api_of_lowest(specs: Seq<RegistrySpec>) -> Seq<char>
    decreases specs.len(),
{
    if specs.len() == 0 {
        "https://crates.io"@
    } else {
        match specs.last() {
            RegistrySpec::Remote { api_url, .. } => api_url@,
            RegistrySpec::Local { .. } => api_of_lowest(specs.drop_last()),
        }
    }
}

/// Counts the registries that are to live in temporary directories.
pub fn count_temp_dirs(specs: &[RegistrySpec]) -> (n: usize)
    ensures
        n == temp_dirs_wanted(specs@),
{
    let mut i: usize = specs.len();
    let mut n: usize = 0;
    assert(specs@.skip(i as int) =~= Seq::empty());
    while i > 0
        invariant
            i <= specs@.len(),
            n <= specs@.len() - i,
            n == temp_dirs_wanted(specs@.skip(i as int)),
        decreases i,
    {
        i = i - 1;
        assert(specs@.skip(i as int).skip(1) =~= specs@.skip(i + 1));
        if let RegistrySpec::Local { path: None } = &specs[i] {
            n = n + 1;
        }
    }
    assert(specs@.skip(0) =~= specs@);
    n
}

/// Whether a host is in a list.
fn has_host(hosts: &Vec<String>, host: &str) -> (yes: bool)
    ensures
        yes == text::views(hosts@).contains(host@),
{
    let mut i: usize = 0;
    while i < hosts.len()
        invariant
            i <= hosts@.len(),
            forall|k: int| 0 <= k < i ==> #[trigger] text::views(hosts@)[k] != host@,
        decreases hosts@.len() - i,
    {
        if same_text(hosts[i].as_str(), host) {
            assert(text::views(hosts@)[i as int] == host@);
            return true;
        }
        i = i + 1;
    }
    false
}

/// Whether one of the hosts belongs to crates.io.
fn has_crates_io(hosts: &Vec<String>) -> (yes: bool)
    ensures
        yes == exists|i: int|
            0 <= i < text::views(hosts@).len() && text::includes(
                #[trigger] text::views(hosts@)[i],
                "crates.io"@,
            ),
{
    let mut i: usize = 0;
    while i < hosts.len()
        invariant
            i <= hosts@.len(),
            forall|k: int|
                0 <= k < i ==> !text::includes(#[trigger] text::views(hosts@)[k], "crates.io"@),
        decreases hosts@.len() - i,
    {
        if has_part(hosts[i].as_str(), "crates.io") {
            assert(text::includes(text::views(hosts@)[i as int], "crates.io"@));
            return true;
        }
        i = i + 1;
    }
    false
}

/// The hosts to intercept, given the hosts that the addresses name.
pub fn collect_hosts(named: Vec<Option<String>>) -> (hosts: Vec<String>)
    ensures
        text::views(hosts@) == hosts_to_intercept(
            named@.map_values(|h: Option<String>| text::opt_view(h)),
        ),
{
    let ghost all = named@.map_values(|h: Option<String>| text::opt_view(h));
    let mut hosts: Vec<String> = Vec::new();
    assert(text::views(hosts@) =~= each_once(all.take(0)));
    for host in it: named
        invariant
            it.seq() == named@,
            all == named@.map_values(|h: Option<String>| text::opt_view(h)),
            text::views(hosts@) == each_once(all.take(it.index())),
    {
        let ghost before = text::views(hosts@);
        proof {
            assert(all.take(it.index() + 1).drop_last() =~= all.take(it.index()));
        }
        if let Some(h) = host {
            if !has_host(&hosts, h.as_str()) {
                hosts.push(h);
                assert(text::views(hosts@) =~= before.push(h@));
            }
        }
    }
    assert(all.take(all.len() as int) =~= all);
    let ghost found = text::views(hosts@);
    if has_crates_io(&hosts) && !has_host(&hosts, "static.crates.io") {
        hosts.push(String::from_str("static.crates.io"));
        assert(text::views(hosts@) =~= found.push("static.crates.io"@));
    }
    hosts
}

/// Where the first local registry stands, if there is one.
fn find_topmost_local(specs: &[RegistrySpec]) -> (at: Option<usize>)
    ensures
        match at {
            Some(i) => 0 <= i < specs@.len() && is_topmost_local(specs@, i as int),
            None => forall|j: int| 0 <= j < specs@.len() ==> !(#[trigger] specs@[j] is Local),
        },
{
    let mut i: usize = 0;
    while i < specs.len()
        invariant
            i <= specs@.len(),
            forall|j: int| 0 <= j < i ==> !(#[trigger] specs@[j] is Local),
        decreases specs@.len() - i,
    {
        if let RegistrySpec::Local { .. } = &specs[i] {
            return Some(i);
        }
        i = i + 1;
    }
    None
}

/// Lays the registries over each other, the first on top. `temp_dirs` are the directories
/// for the registries that are to live in temporary ones.
pub fn build_registry(
    specs: &[RegistrySpec],
    options: &RegistryBuildOptions,
    temp_dirs: Vec<String>,
) -> (built: BuiltRegistry)
    requires
        specs@.len() > 0,
        temp_dirs@.len() == temp_dirs_wanted(specs@),
    ensures
        built.registry == stack(specs@, *options, temp_dirs@, 0),
        text::views(built.upstream_hosts@) == hosts_to_intercept(hosts_named(specs@)),
        built.temp_dirs == temp_dirs,
{
    let topmost = find_topmost_local(specs);
    let wanted = temp_dirs.len();
    let ghost view_host = |h: Option<String>| text::opt_view(h);
    let mut named: Vec<Option<String>> = Vec::new();
    let mut used: usize = 0;
    let mut registry: Option<AnyRegistry> = None;
    let mut i: usize = specs.len();
    proof {
        assert(specs@.skip(i as int) =~= Seq::empty());
        assert(specs@.skip(0) =~= specs@);
        assert(named@.map_values(view_host) =~= hosts_named(specs@.skip(i as int)));
    }
    while i > 0
        invariant
            i <= specs@.len(),
            specs@.len() > 0,
            specs@.skip(0) == specs@,
            match topmost {
                Some(t) => 0 <= t < specs@.len() && is_topmost_local(specs@, t as int),
                None => forall|j: int| 0 <= j < specs@.len() ==> !(#[trigger] specs@[j] is Local),
            },
            wanted == temp_dirs@.len(),
            wanted == temp_dirs_wanted(specs@),
            used == temp_dirs_wanted(specs@.skip(i as int)),
            view_host == (|h: Option<String>| text::opt_view(h)),
            named@.map_values(view_host) == hosts_named(specs@.skip(i as int)),
            registry == if i < specs@.len() {
                Some(stack(specs@, *options, temp_dirs@, i as int))
            } else {
                None
            },
        decreases i,
    {
        i = i - 1;
        proof {
            assert(specs@.skip(i as int).skip(1) =~= specs@.skip(i + 1));
            assert(specs@.skip(i as int)[0] == specs@[i as int]);
            lemma_temp_dirs_below(specs@, i as int);
        }
        let above: AnyRegistry = match &specs[i] {
            RegistrySpec::Local { path } => {
                let path = match path {
                    Some(p) => p.clone(),
                    None => {
                        let dir = temp_dirs[used].clone();
                        used = used + 1;
                        dir
                    },
                };
                let is_topmost = match topmost {
                    Some(t) => t == i,
                    None => false,
                };
                assert(is_topmost == is_topmost_local(specs@, i as int)) by {
                    if is_topmost_local(specs@, i as int) {
                        assert(specs@[i as int] is Local);
                        let t = topmost->0 as int;
                        if t < i {
                            assert(specs@[t] is Local);
                        } else if i < t {
                            assert(specs@[i as int] is Local);
                        }
                    }
                }
                if is_topmost && !options.read_only {
                    AnyRegistry::Local(LocalRegistry::new(path, !options.permissive_publishing))
                } else {
                    AnyRegistry::Local(LocalRegistry::read_only(path))
                }
            },
            RegistrySpec::Remote { api_url, index_url } => {
                let ghost before = named@.map_values(view_host);
                named.push(outside::url_host(api_url.as_str()));
                named.push(outside::url_host(index_url.as_str()));
                assert(named@.map_values(view_host) =~= before.push(
                    outside::url_host_of(api_url@),
                ).push(outside::url_host_of(index_url@)));
                AnyRegistry::Remote(RemoteRegistry::new(index_url.clone(), api_url.clone()))
            },
        };
        assert(above == layer(specs@, *options, temp_dirs@, i as int));
        registry = Some(
            match registry {
                None => above,
                Some(below) => AnyRegistry::Overlay(
                    Box::new(OverlayRegistry::new(above, below)),
                ),
            },
        );
    }
    BuiltRegistry {
        registry: registry.unwrap(),
        upstream_hosts: collect_hosts(named),
        temp_dirs,
    }
}

impl BuiltRegistry {
    /// The address of the upstream API: that of the lowest remote registry.
    pub fn upstream_api(&self, specs: &[RegistrySpec]) -> (api: String)
        ensures
            api@ == api_of_lowest(specs@),
    {
        let mut i: usize = specs.len();
        assert(specs@.take(i as int) =~= specs@);
        while i > 0
            invariant
                i <= specs@.len(),
                api_of_lowest(specs@) == api_of_lowest(specs@.take(i as int)),
            decreases i,
        {
            i = i - 1;
            assert(specs@.take(i + 1).drop_last() =~= specs@.take(i as int));
            assert(specs@.take(i + 1).last() == specs@[i as int]);
            if let RegistrySpec::Remote { api_url, .. } = &specs[i] {
                return api_url.clone();
            }
        }
        String::from_str("https://crates.io")
    }
}

/// The registries from one on want no more temporary directories than all of them.
proof fn lemma_temp_dirs_below(specs: Seq<RegistrySpec>, i: int)
    requires
        0 <= i < specs.len(),
    ensures
        temp_dirs_wanted(specs.skip(i)) <= temp_dirs_wanted(specs),
        temp_dirs_wanted(specs.skip(i)) == temp_dirs_wanted(specs.skip(i + 1)) + if wants_temp_dir(
            specs[i],
        ) {
            1nat
        } else {
            0nat
        },
    decreases i,
{
    assert(specs.skip(i).skip(1) =~= specs.skip(i + 1));
    if i == 0 {
        assert(specs.skip(0) =~= specs);
    } else {
        lemma_temp_dirs_below(specs, i - 1);
        assert(specs.skip(i - 1).skip(1) =~= specs.skip(i));
    }
}

/// Whether a publish request that reaches a registry can be carried out.
pub open spec fn takes_crates(registry: AnyRegistry) -> bool
    decreases registry,
{
    match registry {
        AnyRegistry::Local(local) => !local.read_only,
        AnyRegistry::Remote(remote) => remote.writable,
        AnyRegistry::Overlay(overlay) => takes_crates(overlay.top),
    }
}

/// Only the topmost local layer can be published to, and none where all is read-only.
pub proof fn law_only_the_topmost_local_layer_takes_crates(
    specs: Seq<RegistrySpec>,
    options: RegistryBuildOptions,
    temp_dirs: Seq<String>,
    i: int,
)
    requires
        0 <= i < specs.len(),
    ensures
        takes_crates(layer(specs, options, temp_dirs, i)) <==> !options.read_only
            && is_topmost_local(specs, i),
{
}

/// Publish requests go to the top layer: they can be carried out where that is a local
/// registry, and not all is read-only.
pub proof fn law_publish_requests_go_to_the_top(
    specs: Seq<RegistrySpec>,
    options: RegistryBuildOptions,
    temp_dirs: Seq<String>,
)
    requires
        specs.len() > 0,
    ensures
        takes_crates(stack(specs, options, temp_dirs, 0)) <==> !options.read_only
            && specs[0] is Local,
{
    law_only_the_topmost_local_layer_takes_crates(specs, options, temp_dirs, 0);
    assert(is_topmost_local(specs, 0) <==> specs[0] is Local);
    reveal_with_fuel(takes_crates, 2);
}

/// What a lookup in a registry gives, where each layer answers as `answer` says. A layer
/// that fails is not passed over.
pub open spec fn looked_up(
    registry: AnyRegistry,
    answer: spec_fn(AnyRegistry) -> Result<Seq<IndexEntry>, RegistryError>,
) -> Result<Seq<IndexEntry>, RegistryError>
    decreases registry,
{
    match registry {
        AnyRegistry::Overlay(overlay) => match looked_up(overlay.top, answer) {
            Err(e) => Err(e),
            Ok(top) => match looked_up(overlay.bottom, answer) {
                Err(e) => Err(e),
                Ok(bottom) => Ok(overlay::merged(top, bottom)),
            },
        },
        _ => answer(registry),
    }
}

/// The topmost layer that fails decides: a lookup is answered with its error, and no entry
/// of another layer is given.
pub proof fn law_topmost_failure_decides(
    specs: Seq<RegistrySpec>,
    options: RegistryBuildOptions,
    temp_dirs: Seq<String>,
    answer: spec_fn(AnyRegistry) -> Result<Seq<IndexEntry>, RegistryError>,
    i: int,
    k: int,
)
    requires
        0 <= i <= k < specs.len(),
        forall|j: int| i <= j < k ==> answer(#[trigger] layer(specs, options, temp_dirs, j)) is Ok,
        answer(layer(specs, options, temp_dirs, k)) is Err,
    ensures
        looked_up(stack(specs, options, temp_dirs, i), answer) == answer(
            layer(specs, options, temp_dirs, k),
        ),
    decreases k - i,
{
    let top = layer(specs, options, temp_dirs, i);
    assert(looked_up(top, answer) == answer(top));
    if i < k {
        assert(answer(layer(specs, options, temp_dirs, i)) is Ok);
        law_topmost_failure_decides(specs, options, temp_dirs, answer, i + 1, k);
    }
}

/// A lookup succeeds exactly where every layer answers.
pub proof fn law_lookup_takes_every_layer(
    specs: Seq<RegistrySpec>,
    options: RegistryBuildOptions,
    temp_dirs: Seq<String>,
    answer: spec_fn(AnyRegistry) -> Result<Seq<IndexEntry>, RegistryError>,
    i: int,
)
    requires
        0 <= i < specs.len(),
    ensures
        looked_up(stack(specs, options, temp_dirs, i), answer) is Ok <==> forall|k: int|
            i <= k < specs.len() ==> answer(#[trigger] layer(specs, options, temp_dirs, k)) is Ok,
    decreases specs.len() - i,
{
    let top = layer(specs, options, temp_dirs, i);
    assert(looked_up(top, answer) == answer(top));
    if i + 1 < specs.len() {
        law_lookup_takes_every_layer(specs, options, temp_dirs, answer, i + 1);
    }
}

/// The topmost layer that has a version decides: an entry that a lookup gives comes from
/// a layer above which no layer has its version.
pub proof fn law_topmost_layer_with_a_version_decides(
    specs: Seq<RegistrySpec>,
    options: RegistryBuildOptions,
    temp_dirs: Seq<String>,
    answer: spec_fn(AnyRegistry) -> Result<Seq<IndexEntry>, RegistryError>,
    e: IndexEntry,
    i: int,
)
    requires
        0 <= i < specs.len(),
        looked_up(stack(specs, options, temp_dirs, i), answer) matches Ok(all) && all.contains(e),
    ensures
        exists|k: int|
            i <= k < specs.len() && answer(
                #[trigger] layer(specs, options, temp_dirs, k),
            )->Ok_0.contains(e) && forall|j: int|
                i <= j < k ==> !overlay::has_version(
                    answer(#[trigger] layer(specs, options, temp_dirs, j))->Ok_0,
                    e.vers@,
                ),
    decreases specs.len() - i,
{
    let top = layer(specs, options, temp_dirs, i);
    assert(looked_up(top, answer) == answer(top));
    if i + 1 >= specs.len() {
        assert(answer(layer(specs, options, temp_dirs, i))->Ok_0.contains(e));
    } else {
        let above = answer(top)->Ok_0;
        let below = looked_up(stack(specs, options, temp_dirs, i + 1), answer)->Ok_0;
        assert(looked_up(stack(specs, options, temp_dirs, i), answer)->Ok_0 == overlay::merged(
            above,
            below,
        ));
        overlay::law_top_layer_takes_precedence(above, below, e);
        if overlay::has_version(above, e.vers@) {
            let n = choose|n: int|
                0 <= n < above.len() && #[trigger] above[n] == e && !overlay::has_version(
                    above.skip(n + 1),
                    e.vers@,
                );
            assert(answer(layer(specs, options, temp_dirs, i))->Ok_0.contains(e));
        } else {
            law_topmost_layer_with_a_version_decides(
                specs,
                options,
                temp_dirs,
                answer,
                e,
                i + 1,
            );
            let k = choose|k: int|
                i + 1 <= k < specs.len() && answer(
                    #[trigger] layer(specs, options, temp_dirs, k),
                )->Ok_0.contains(e) && forall|j: int|
                    i + 1 <= j < k ==> !overlay::has_version(
                        answer(#[trigger] layer(specs, options, temp_dirs, j))->Ok_0,
                        e.vers@,
                    );
            assert(answer(layer(specs, options, temp_dirs, k))->Ok_0.contains(e));
        }
    }
}

/// A lookup that succeeds tells of exactly the versions that some layer has.
pub proof fn law_lookup_has_the_versions_of_all_layers(
    specs: Seq<RegistrySpec>,
    options: RegistryBuildOptions,
    temp_dirs: Seq<String>,
    answer: spec_fn(AnyRegistry) -> Result<Seq<IndexEntry>, RegistryError>,
    vers: Seq<char>,
    i: int,
)
    requires
        0 <= i < specs.len(),
        looked_up(stack(specs, options, temp_dirs, i), answer) is Ok,
    ensures
        overlay::has_version(
            looked_up(stack(specs, options, temp_dirs, i), answer)->Ok_0,
            vers,
        ) <==> (exists|k: int|
            i <= k < specs.len() && overlay::has_version(
                answer(#[trigger] layer(specs, options, temp_dirs, k))->Ok_0,
                vers,
            )),
    decreases specs.len() - i,
{
    let top = layer(specs, options, temp_dirs, i);
    assert(looked_up(top, answer) == answer(top));
    if i + 1 < specs.len() {
        let below = looked_up(stack(specs, options, temp_dirs, i + 1), answer)->Ok_0;
        assert(looked_up(stack(specs, options, temp_dirs, i), answer)->Ok_0 == overlay::merged(
            answer(top)->Ok_0,
            below,
        ));
        overlay::law_merge_has_the_versions_of_both(answer(top)->Ok_0, below, vers);
        law_lookup_has_the_versions_of_all_layers(specs, options, temp_dirs, answer, vers, i + 1);
    }
}

/// What a download from a registry gives, where each layer answers as `answer` says.
pub open spec fn downloaded(
    registry: AnyRegistry,
    answer: spec_fn(AnyRegistry) -> Result<Vec<u8>, RegistryError>,
) -> Result<Vec<u8>, RegistryError>
    decreases registry,
{
    match registry {
        AnyRegistry::Overlay(overlay) => match downloaded(overlay.top, answer) {
            Err(RegistryError::NotFound) => downloaded(overlay.bottom, answer),
            other => other,
        },
        _ => answer(registry),
    }
}

/// The topmost layer that has a crate decides: a download is answered by the first layer
/// that does not say that the crate is not found, and otherwise by the last.
pub proof fn law_topmost_layer_with_a_crate_decides(
    specs: Seq<RegistrySpec>,
    options: RegistryBuildOptions,
    temp_dirs: Seq<String>,
    answer: spec_fn(AnyRegistry) -> Result<Vec<u8>, RegistryError>,
    i: int,
    k: int,
)
    requires
        0 <= i <= k < specs.len(),
        forall|j: int|
            i <= j < k ==> answer(#[trigger] layer(specs, options, temp_dirs, j)) == Err::<
                Vec<u8>,
                RegistryError,
            >(RegistryError::NotFound),
        k + 1 == specs.len() || answer(layer(specs, options, temp_dirs, k)) != Err::<
            Vec<u8>,
            RegistryError,
        >(RegistryError::NotFound),
    ensures
        downloaded(stack(specs, options, temp_dirs, i), answer) == answer(
            layer(specs, options, temp_dirs, k),
        ),
    decreases k - i,
{
    let top = layer(specs, options, temp_dirs, i);
    assert(downloaded(top, answer) == answer(top));
    if i < k {
        law_topmost_layer_with_a_crate_decides(specs, options, temp_dirs, answer, i + 1, k);
    }
}

/// The hosts to intercept are all the hosts that the addresses name, each once; the only
/// other one can be the one that serves the files of crates.io.
pub proof fn law_hosts_are_intercepted_once(named: Seq<Option<Seq<char>>>, host: Seq<char>)
    ensures
        hosts_to_intercept(named).no_duplicates(),
        named.contains(Some(host)) ==> hosts_to_intercept(named).contains(host),
        hosts_to_intercept(named).contains(host) ==> named.contains(Some(host)) || host
            == "static.crates.io"@,
{
    let hosts = each_once(named);
    lemma_each_once(named, host);
    let all = hosts_to_intercept(named);
    if hosts.contains(host) {
        let i = choose|i: int| 0 <= i < hosts.len() && hosts[i] == host;
        assert(all[i] == host);
    }
}

proof fn lemma_each_once(named: Seq<Option<Seq<char>>>, host: Seq<char>)
    ensures
        each_once(named).no_duplicates(),
        each_once(named).contains(host) <==> named.contains(Some(host)),
    decreases named.len(),
{
    if named.len() > 0 {
        let before = each_once(named.drop_last());
        let now = each_once(named);
        lemma_each_once(named.drop_last(), host);
        assert(named.drop_last().push(named.last()) =~= named);
        overlay::lemma_contains_push(named.drop_last(), named.last(), Some(host));
        if let Some(h) = named.last() {
            overlay::lemma_contains_push(before, h, host);
        }
    }
}

} // verus!
