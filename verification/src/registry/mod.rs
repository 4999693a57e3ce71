//! Registries, and what they answer.

use vstd::prelude::*;
use vstd::std_specs::convert::FromSpecImpl;

use crate::text;
use crate::text::join_strings;

pub mod checksum;
pub mod index;
pub mod layers;
pub mod local;
pub mod overlay;
pub mod remote;
pub mod shard;
pub mod walk;

verus! {

/// Why a registry did not do what it was asked.
#[derive(Debug)]
pub enum RegistryError {
    /// There is no such crate or version.
    NotFound,
    /// A file could not be read or written.
    Storage(std::io::Error),
    /// A value could not be written as JSON.
    Serialization(serde_json::Error),
    /// The metadata does not meet the requirements.
    ValidationFailed(Vec<String>),
    /// The upstream registry failed, or could not be reached.
    Network(String),
    /// The registry does not do this.
    NotSupported,
}

/// What lies behind a registry error.
#[derive(Debug)]
pub enum ErrorSource<'a> {
    Storage(&'a std::io::Error),
    Serialization(&'a serde_json::Error),
}

impl RegistryError {
    /// Whether `s` is what the error says. What an outside error says of itself is what
    /// its own `to_string` gives.
    pub open spec fn says(self, s: Seq<char>) -> bool {
        match self {
            RegistryError::NotFound => s == "not found"@,
            RegistryError::Storage(e) => exists|own: String| #[trigger]
                vstd::string::to_string_from_display_ensures(&e, own) && s == "storage error: "@
                    + own@,
            RegistryError::Serialization(e) => exists|own: String| #[trigger]
                vstd::string::to_string_from_display_ensures(&e, own) && s
                    == "serialization error: "@ + own@,
            RegistryError::ValidationFailed(errors) => s == "validation failed: "@ + text::join(
                text::views(errors@),
                "; "@,
            ),
            RegistryError::Network(message) => s == "network error: "@ + message@,
            RegistryError::NotSupported => s == "operation not supported"@,
        }
    }

    /// Whether the error always says the same. Of an outside error that is not known.
    pub open spec fn is_steady(self) -> bool {
        match self {
            RegistryError::Storage(e) => forall|a: String, b: String|
                #[trigger] vstd::string::to_string_from_display_ensures(&e, a)
                    && #[trigger] vstd::string::to_string_from_display_ensures(&e, b) ==> a@ == b@,
            RegistryError::Serialization(e) => forall|a: String, b: String|
                #[trigger] vstd::string::to_string_from_display_ensures(&e, a)
                    && #[trigger] vstd::string::to_string_from_display_ensures(&e, b) ==> a@ == b@,
            _ => true,
        }
    }

    /// What the error says.
    pub fn to_string(&self) -> (s: String)
        ensures
            self.says(s@),
    {
        match self {
            RegistryError::NotFound => String::from_str("not found"),
            RegistryError::Storage(e) => {
                let own = e.to_string();
                String::from_str("storage error: ").concat(own.as_str())
            },
            RegistryError::Serialization(e) => {
                let own = e.to_string();
                String::from_str("serialization error: ").concat(own.as_str())
            },
            RegistryError::ValidationFailed(errors) => {
                let all = join_strings(errors, "; ");
                String::from_str("validation failed: ").concat(all.as_str())
            },
            RegistryError::Network(message) => {
                String::from_str("network error: ").concat(message.as_str())
            },
            RegistryError::NotSupported => String::from_str("operation not supported"),
        }
    }

    /// The outside error behind this one, if there is one.
    pub fn source(&self) -> (source: Option<ErrorSource<'_>>)
        ensures
            source == match *self {
                RegistryError::Storage(e) => Some(ErrorSource::Storage(&e)),
                RegistryError::Serialization(e) => Some(ErrorSource::Serialization(&e)),
                _ => None,
            },
    {
        match self {
            RegistryError::Storage(e) => Some(ErrorSource::Storage(e)),
            RegistryError::Serialization(e) => Some(ErrorSource::Serialization(e)),
            _ => None,
        }
    }
}

impl From<std::io::Error> for RegistryError {
    fn from(e: std::io::Error) -> (error: RegistryError) {
        RegistryError::Storage(e)
    }
}

impl FromSpecImpl<std::io::Error> for RegistryError {
    open spec fn obeys_from_spec() -> bool {
        true
    }

    open spec fn from_spec(e: std::io::Error) -> RegistryError {
        RegistryError::Storage(e)
    }
}

impl From<serde_json::Error> for RegistryError {
    fn from(e: serde_json::Error) -> (error: RegistryError) {
        RegistryError::Serialization(e)
    }
}

impl FromSpecImpl<serde_json::Error> for RegistryError {
    open spec fn obeys_from_spec() -> bool {
        true
    }

    open spec fn from_spec(e: serde_json::Error) -> RegistryError {
        RegistryError::Serialization(e)
    }
}

} // verus!
