//! What the command line asks for, and what follows from it.

use vstd::prelude::*;

use crate::registry::layers;
use crate::registry::layers::{RegistryBuildOptions, RegistrySpec, RegistrySpecView};
use crate::text;
use crate::text::{decimal_text, same_text};

verus! {

/// The command line. Paths are given as text.
pub struct Args {
    /// The port to listen on.
    pub port: u16,
    /// The host or address to bind to.
    pub host: String,
    /// Where the server says it is, in `config.json`.
    pub base_url: String,
    /// The registries, the first on top.
    pub registries: Vec<RegistrySpec>,
    /// Whether the server is no proxy.
    pub no_proxy: bool,
    /// Whether nothing can be published.
    pub read_only: bool,
    /// Where the certificate of the proxy is written.
    pub ca_cert_out: Option<String>,
    /// The server's own certificate.
    pub tls_cert: Option<String>,
    /// The key to that certificate.
    pub tls_key: Option<String>,
    /// Whether the server speaks plain HTTP.
    pub no_tls: bool,
    /// Whether metadata is not checked when a crate is published.
    pub permissive_publishing: bool,
    /// A command to run while the server is up, with its arguments.
    pub command_line: Option<Vec<String>>,
}

/// Where the server's own certificate comes from.
pub enum Certificate {
    Files { cert: String, key: String },
    SelfSigned,
}

/// How the server listens.
pub enum ServerMode {
    /// As a proxy, over TLS if there is a certificate.
    Proxy { tls: Option<Certificate> },
    /// As a plain server over TLS.
    Tls { certificate: Certificate },
    /// As a plain server.
    Http,
    /// Not at all: the key to the given certificate is missing.
    MissingKey,
}

/// What to run while the server is up.
pub enum Command {
    /// Nothing: the server runs until it is stopped.
    Serve,
    /// A command was asked for, and none is given.
    Missing,
    /// This program, with these arguments.
    Run { program: String, arguments: Vec<String> },
}

/// What to do while the server starts up.
pub enum WaitStep {
    /// Try to reach the server; where that fails, pause so long and come back.
    Try { pause_millis: u64 },
    /// Go on with the command.
    GoOn,
}

/// How a command waits for the server, after so many tries: until the server is reached,
/// and for fifty tries at most.
pub fn wait_step(tries: u32, reached: bool) -> (step: WaitStep)
    ensures
        step == if reached || tries >= 50 {
            WaitStep::GoOn
        } else {
            WaitStep::Try { pause_millis: 100 }
        },
{
    if reached || tries >= 50 {
        WaitStep::GoOn
    } else {
        WaitStep::Try { pause_millis: 100 }
    }
}

/// The address under which a client on the same machine reaches a server bound to `host`.
pub open spec fn connect_host_of(host: Seq<char>) -> Seq<char> {
    if host == "0.0.0.0"@ {
        "127.0.0.1"@
    } else if host == "::"@ {
        "::1"@
    } else {
        host
    }
}

/// The address under which a client on the same machine reaches a server bound to `host`.
pub fn connect_host(host: &str) -> (reached: &str)
    ensures
        reached@ == connect_host_of(host@),
{
    if same_text(host, "0.0.0.0") {
        "127.0.0.1"
    } else if same_text(host, "::") {
        "::1"
    } else {
        host
    }
}

/// With what a program ends that ran a command: as the command did, and with 1 where the
/// command has no exit code.
pub fn exit_code(code: Option<i32>) -> (ours: i32)
    ensures
        ours == match code {
            Some(c) => c,
            None => 1,
        },
{
    match code {
        Some(c) => c,
        None => 1,
    }
}

impl Args {
    /// Whether the server speaks TLS. A command reaches it without, so that it need not
    /// trust its certificate.
    pub open spec fn wants_tls(&self) -> bool {
        !self.no_tls && self.command_line is None
    }

    /// Where the proxy is.
    pub open spec fn proxy_address(&self) -> Seq<char> {
        (if self.wants_tls() {
            "https"@
        } else {
            "http"@
        }) + "://"@ + connect_host_of(self.host@) + ":"@ + text::decimal(self.port as nat) + "/"@
    }

    /// Whether the server is to speak TLS under a certificate whose key is not given.
    pub open spec fn lacks_key(&self) -> bool {
        self.wants_tls() && self.tls_cert is Some && self.tls_key is None
    }

    /// Whether `certificate` is the one to use: the given one, with its key. One is made
    /// only where none is given.
    pub open spec fn is_certificate(&self, certificate: Certificate) -> bool {
        match (self.tls_cert, self.tls_key) {
            (Some(c), Some(k)) => certificate matches Certificate::Files { cert, key } && cert@
                == c@ && key@ == k@,
            (Some(_), None) => false,
            (None, _) => certificate is SelfSigned,
        }
    }

    /// The registries, the first on top. Where none is given, what is published goes to a
    /// temporary directory, laid over crates.io.
    pub fn effective_registries(&self) -> (registries: Vec<RegistrySpec>)
        ensures
            self.registries@.len() > 0 ==> registries@ == self.registries@,
            self.registries@.len() == 0 ==> {
                &&& registries@.len() == 2
                &&& registries@[0]@ == (RegistrySpecView::Local { path: None })
                &&& registries@[1]@ == layers::crates_io_view()
            },
    {
        let mut registries: Vec<RegistrySpec> = Vec::new();
        if self.registries.is_empty() {
            registries.push(RegistrySpec::local_temp());
            registries.push(RegistrySpec::crates_io());
            return registries;
        }
        let mut i: usize = 0;
        while i < self.registries.len()
            invariant
                i <= self.registries@.len(),
                registries@ == self.registries@.take(i as int),
            decreases self.registries@.len() - i,
        {
            registries.push(self.registries[i].clone());
            i = i + 1;
            assert(self.registries@.take(i as int) =~= self.registries@.take(i - 1).push(
                self.registries@[i - 1],
            ));
        }
        assert(self.registries@.take(i as int) =~= self.registries@);
        registries
    }

    /// Whether the server speaks TLS.
    pub fn use_tls(&self) -> (yes: bool)
        ensures
            yes == self.wants_tls(),
    {
        !self.no_tls && self.command_line.is_none()
    }

    /// How to build the registry.
    pub fn build_options(&self) -> (options: RegistryBuildOptions)
        ensures
            options == (RegistryBuildOptions {
                permissive_publishing: self.permissive_publishing,
                read_only: self.read_only,
            }),
    {
        RegistryBuildOptions {
            permissive_publishing: self.permissive_publishing,
            read_only: self.read_only,
        }
    }

    /// Where the server listens.
    pub fn bind_addr(&self) -> (address: String)
        ensures
            address@ == self.host@ + ":"@ + text::decimal(self.port as nat),
    {
        let port = decimal_text(self.port as usize);
        self.host.clone().concat(":").concat(port.as_str())
    }

    /// Where the proxy is.
    pub fn proxy_url(&self) -> (url: String)
        ensures
            url@ == self.proxy_address(),
    {
        let protocol = if self.use_tls() {
            "https"
        } else {
            "http"
        };
        let port = decimal_text(self.port as usize);
        String::from_str(protocol).concat("://").concat(connect_host(self.host.as_str())).concat(
            ":",
        ).concat(port.as_str()).concat("/")
    }

    /// The certificate that clients are to trust: the server's own, if it is given, and
    /// that of the proxy if not.
    pub fn cainfo_path(&self, ca_cert_path: &str) -> (path: String)
        ensures
            path@ == match self.tls_cert {
                Some(cert) => cert@,
                None => ca_cert_path@,
            },
    {
        match &self.tls_cert {
            Some(cert) => cert.clone(),
            None => String::from_str(ca_cert_path),
        }
    }

    /// The environment in which cargo goes through the proxy; empty where there is none.
    pub fn cargo_env(&self, ca_cert_path: &str) -> (env: Vec<(String, String)>)
        ensures
            self.no_proxy ==> env@.len() == 0,
            !self.no_proxy ==> {
                &&& env@.len() == 3
                &&& env@[0].0@ == "CARGO_HTTP_PROXY"@
                &&& env@[0].1@ == self.proxy_address()
                &&& env@[1].0@ == "CARGO_HTTP_CAINFO"@
                &&& env@[1].1@ == match self.tls_cert {
                    Some(cert) => cert@,
                    None => ca_cert_path@,
                }
                &&& env@[2].0@ == "CARGO_REGISTRY_TOKEN"@
                &&& env@[2].1@ == "dummy"@
            },
    {
        let mut env: Vec<(String, String)> = Vec::new();
        if !self.no_proxy {
            env.push((String::from_str("CARGO_HTTP_PROXY"), self.proxy_url()));
            env.push((String::from_str("CARGO_HTTP_CAINFO"), self.cainfo_path(ca_cert_path)));
            env.push((String::from_str("CARGO_REGISTRY_TOKEN"), String::from_str("dummy")));
        }
        env
    }

    /// Whether the environment in which cargo goes through the proxy is printed: it is
    /// where there is a proxy, and no command that is given it.
    pub fn prints_env(&self) -> (yes: bool)
        ensures
            yes == (!self.no_proxy && self.command_line is None),
    {
        !self.no_proxy && self.command_line.is_none()
    }

    /// The server's own certificate; none where the key to it is missing.
    fn certificate(&self) -> (certificate: Option<Certificate>)
        ensures
            match certificate {
                Some(c) => self.is_certificate(c),
                None => self.tls_cert is Some && self.tls_key is None,
            },
    {
        match (&self.tls_cert, &self.tls_key) {
            (Some(cert), Some(key)) => Some(
                Certificate::Files { cert: cert.clone(), key: key.clone() },
            ),
            (Some(_), None) => None,
            (None, _) => Some(Certificate::SelfSigned),
        }
    }

    /// How the server listens. A certificate takes its key: where TLS is on and the key is
    /// missing, the server does not listen, and no other certificate takes the place of
    /// the given one.
    pub fn server_mode(&self) -> (mode: ServerMode)
        ensures
            mode is MissingKey <==> self.lacks_key(),
            match mode {
                ServerMode::Proxy { tls: None } => !self.no_proxy && !self.wants_tls(),
                ServerMode::Proxy { tls: Some(c) } => !self.no_proxy && self.wants_tls()
                    && self.is_certificate(c),
                ServerMode::Tls { certificate } => self.no_proxy && self.wants_tls()
                    && self.is_certificate(certificate),
                ServerMode::Http => self.no_proxy && !self.wants_tls(),
                ServerMode::MissingKey => self.lacks_key(),
            },
    {
        if !self.use_tls() {
            return if self.no_proxy {
                ServerMode::Http
            } else {
                ServerMode::Proxy { tls: None }
            };
        }
        match self.certificate() {
            None => ServerMode::MissingKey,
            Some(certificate) => {
                if self.no_proxy {
                    ServerMode::Tls { certificate }
                } else {
                    ServerMode::Proxy { tls: Some(certificate) }
                }
            },
        }
    }

    /// What to run while the server is up.
    pub fn command(&self) -> (command: Command)
        ensures
            match self.command_line {
                None => command is Serve,
                Some(words) => if words@.len() == 0 {
                    command is Missing
                } else {
                    command matches Command::Run { program, arguments } && {
                        &&& program@ == words@[0]@
                        &&& text::views(arguments@) == text::views(words@).skip(1)
                    }
                },
            },
    {
        match &self.command_line {
            None => Command::Serve,
            Some(words) => {
                if words.len() == 0 {
                    return Command::Missing;
                }
                let mut arguments: Vec<String> = Vec::new();
                let mut i: usize = 1;
                assert(text::views(arguments@) =~= text::views(words@).subrange(1, 1));
                while i < words.len()
                    invariant
                        1 <= i <= words@.len(),
                        text::views(arguments@) == text::views(words@).subrange(1, i as int),
                    decreases words@.len() - i,
                {
                    let ghost before = text::views(arguments@);
                    arguments.push(words[i].clone());
                    assert(text::views(arguments@) =~= before.push(words@[i as int]@));
                    assert(text::views(words@).subrange(1, i + 1) =~= before.push(
                        words@[i as int]@,
                    ));
                    i = i + 1;
                }
                assert(text::views(words@).subrange(1, words@.len() as int) =~= text::views(
                    words@,
                ).skip(1));
                Command::Run { program: words[0].clone(), arguments }
            },
        }
    }
}

} // verus!
