//! A cargo registry made of layers: local registries, to which crates are published, laid
//! over remote ones such as crates.io.
//!
//! What is here decides and computes. Files, sockets and processes are left to the caller,
//! who is told what to read, write and send, and hands back what came of it. JSON is
//! written and read by functions that the caller passes in.
//!
//! - `types`: what cargo and a registry tell each other.
//! - `publish_body`: the body of a publish request.
//! - `registry`: local and remote registries, and how they are laid over each other.
//! - `endpoints`, `routing`: what requests ask for, and what they are answered.
//! - `workflow`: what holds from a publish request to the next lookup.
//! - `laws`: what the operations are for, in terms of plain values.
//! - `cli`: what the command line asks for.
//! - `tls`: the certificates that the server shows.
//! - `text`: text.
//! - `outside`: what is taken on trust from other crates.

pub mod cli;
pub mod endpoints;
pub mod laws;
pub mod outside;
pub mod publish_body;
pub mod registry;
pub mod routing;
pub mod text;
pub mod tls;
pub mod types;
pub mod workflow;

pub use registry::layers::{
    build_registry, AnyRegistry, BuiltRegistry, RegistryBuildOptions, RegistrySpec,
};
pub use registry::local::LocalRegistry;
pub use registry::overlay::OverlayRegistry;
pub use registry::remote::RemoteRegistry;
pub use registry::RegistryError;
