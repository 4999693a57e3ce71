//! A registry somewhere else, reached over HTTP.
//!
//! Sending requests is left to the caller. The functions here say what to send, and what
//! follows from what came back. A response is given by its status code and by the status
//! in words, such as `404 Not Found`.

use vstd::prelude::*;
use vstd::utf8::*;

use crate::outside;
use crate::publish_body;
use crate::publish_body::write_publish_body;
use crate::registry::index;
use crate::registry::index::read_entries;
use crate::registry::shard;
use crate::registry::shard::{is_shardable, shard};
use crate::registry::RegistryError;
use crate::text;
use crate::types::IndexEntry;

verus! {

/// A registry somewhere else.
pub struct RemoteRegistry {
    /// Where its sparse index is, such as `https://index.crates.io`.
    pub index_url: String,
    /// Where its API is, such as `https://crates.io`.
    pub api_url: String,
    /// Whether publish requests are passed on to it.
    pub writable: bool,
}

/// What to do next, once the status of a response is known.
pub enum StatusStep<T> {
    /// The request is over.
    Done(Result<T, RegistryError>),
    /// The body of the response is to be read.
    ReadBody,
}

/// A publish request to send: a PUT.
pub struct PublishRequest {
    pub url: String,
    pub body: Vec<u8>,
    /// The value of the Authorization header, if there is one.
    pub authorization: Option<String>,
}

/// Whether a status code says that the request was carried out.
pub open spec fn is_success(code: u16) -> bool {
    200 <= code <= 299
}

/// The path of a crate in a sparse index, given the crate's name in lower case.
pub open spec fn index_path_of(lower: Seq<char>) -> Seq<char> {
    let (first, second) = shard::shard_of(lower);
    match second {
        Some(second) => "/"@ + first + "/"@ + second + "/"@ + lower,
        None => "/"@ + first + "/"@ + lower,
    }
}

/// The complaint about a status.
pub open spec fn status_message(status: Seq<char>) -> Seq<char> {
    "upstream returned "@ + status
}

/// What a failed request comes to.
pub open spec fn is_network_error<T>(answer: Result<T, RegistryError>, message: Seq<char>) -> bool {
    answer matches Err(RegistryError::Network(m)) && m@ == message
}

/// Complains about a status.
fn refused(status: &str) -> (error: RegistryError)
    ensures
        error matches RegistryError::Network(m) && m@ == status_message(status@),
{
    RegistryError::Network(String::from_str("upstream returned ").concat(status))
}

impl Clone for RemoteRegistry {
    fn clone(&self) -> (copy: RemoteRegistry)
        ensures
            copy == *self,
    {
        RemoteRegistry {
            index_url: self.index_url.clone(),
            api_url: self.api_url.clone(),
            writable: self.writable,
        }
    }
}

impl RemoteRegistry {
    /// A registry to read from.
    pub fn new(index_url: String, api_url: String) -> (registry: RemoteRegistry)
        ensures
            registry == (RemoteRegistry { index_url, api_url, writable: false }),
    {
        RemoteRegistry { index_url, api_url, writable: false }
    }

    /// A registry that publish requests are passed on to.
    pub fn writable(index_url: String, api_url: String) -> (registry: RemoteRegistry)
        ensures
            registry == (RemoteRegistry { index_url, api_url, writable: true }),
    {
        RemoteRegistry { index_url, api_url, writable: true }
    }

    /// The path of a crate in a sparse index, given the crate's name in lower case.
    pub fn index_path_for(lower: &str) -> (path: String)
        requires
            shard::shardable(lower@),
        ensures
            path@ == index_path_of(lower@),
    {
        let (first, second) = shard(lower);
        match second {
            Some(second) => {
                String::from_str("/").concat(first).concat("/").concat(second).concat("/").concat(
                    lower,
                )
            },
            None => String::from_str("/").concat(first).concat("/").concat(lower),
        }
    }

    /// The path of a crate in a sparse index.
    pub fn index_path(crate_name: &str) -> (path: String)
        requires
            shard::shardable(outside::lowercase_of(crate_name@)),
        ensures
            path@ == index_path_of(outside::lowercase_of(crate_name@)),
    {
        let lower = crate_name.to_lowercase();
        RemoteRegistry::index_path_for(lower.as_str())
    }

    /// Where to look a crate up, if its name has a place in an index. A name in ASCII has
    /// one.
    pub fn lookup_url(&self, crate_name: &str) -> (url: Option<String>)
        ensures
            match url {
                Some(u) => shard::shardable(outside::lowercase_of(crate_name@)) && u@
                    == self.index_url@ + index_path_of(outside::lowercase_of(crate_name@)),
                None => !shard::shardable(outside::lowercase_of(crate_name@)),
            },
            is_ascii_chars(crate_name@) && crate_name@.len() > 0 ==> (url matches Some(u) && u@
                == self.index_url@ + index_path_of(text::ascii_lower(crate_name@))),
    {
        let lower = crate_name.to_lowercase();
        proof {
            if is_ascii_chars(crate_name@) && crate_name@.len() > 0 {
                text::lemma_lower_is_ascii(crate_name@);
                shard::law_ascii_names_have_a_place(text::ascii_lower(crate_name@));
            }
        }
        if is_shardable(lower.as_str()) {
            let path = RemoteRegistry::index_path(crate_name);
            Some(self.index_url.clone().concat(path.as_str()))
        } else {
            None
        }
    }

    /// Goes on with a lookup when the status is known, or when nothing came back. Without
    /// such a crate upstream, there are no entries.
    pub fn lookup_status(sent: Result<(u16, String), String>) -> (step: StatusStep<
        Vec<IndexEntry>,
    >)
        ensures
            match sent {
                Err(message) => step == StatusStep::<Vec<IndexEntry>>::Done(
                    Err(RegistryError::Network(message)),
                ),
                Ok((code, status)) => if code == 404 {
                    step matches StatusStep::Done(Ok(entries)) && entries@.len() == 0
                } else if is_success(code) {
                    step is ReadBody
                } else {
                    step matches StatusStep::Done(answer) && is_network_error(
                        answer,
                        status_message(status@),
                    )
                },
            },
    {
        match sent {
            Err(message) => StatusStep::Done(Err(RegistryError::Network(message))),
            Ok((code, status)) => {
                if code == 404 {
                    StatusStep::Done(Ok(Vec::new()))
                } else if 200 <= code && code <= 299 {
                    StatusStep::ReadBody
                } else {
                    StatusStep::Done(Err(refused(status.as_str())))
                }
            },
        }
    }

    /// Ends a lookup when the body was read, or could not be.
    pub fn lookup_body<D: Fn(&str) -> Option<IndexEntry>>(
        body: Result<String, String>,
        read: D,
    ) -> (entries: Result<Vec<IndexEntry>, RegistryError>)
        requires
            forall|s: &str| #[trigger] call_requires(read, (s,)),
        ensures
            match body {
                Err(message) => entries == Err::<Vec<IndexEntry>, RegistryError>(
                    RegistryError::Network(message),
                ),
                Ok(content) => entries matches Ok(found) && index::is_read(
                    found@,
                    content@,
                    read,
                ),
            },
    {
        match body {
            Err(message) => Err(RegistryError::Network(message)),
            Ok(content) => Ok(read_entries(content.as_str(), read)),
        }
    }

    /// Where to download a crate.
    pub fn download_url(&self, crate_name: &str, version: &str) -> (url: String)
        ensures
            url@ == self.api_url@ + "/api/v1/crates/"@ + crate_name@ + "/"@ + version@
                + "/download"@,
    {
        self.api_url.clone().concat("/api/v1/crates/").concat(crate_name).concat("/").concat(
            version,
        ).concat("/download")
    }

    /// Goes on with a download when the status is known, or when nothing came back.
    pub fn download_status(sent: Result<(u16, String), String>) -> (step: StatusStep<Vec<u8>>)
        ensures
            match sent {
                Err(message) => step == StatusStep::<Vec<u8>>::Done(
                    Err(RegistryError::Network(message)),
                ),
                Ok((code, status)) => if code == 404 {
                    step == StatusStep::<Vec<u8>>::Done(Err(RegistryError::NotFound))
                } else if is_success(code) {
                    step is ReadBody
                } else {
                    step matches StatusStep::Done(answer) && is_network_error(
                        answer,
                        status_message(status@),
                    )
                },
            },
    {
        match sent {
            Err(message) => StatusStep::Done(Err(RegistryError::Network(message))),
            Ok((code, status)) => {
                if code == 404 {
                    StatusStep::Done(Err(RegistryError::NotFound))
                } else if 200 <= code && code <= 299 {
                    StatusStep::ReadBody
                } else {
                    StatusStep::Done(Err(refused(status.as_str())))
                }
            },
        }
    }

    /// Ends a download when the body was read, or could not be.
    pub fn download_body(body: Result<Vec<u8>, String>) -> (data: Result<Vec<u8>, RegistryError>)
        ensures
            data == match body {
                Ok(bytes) => Ok(bytes),
                Err(message) => Err(RegistryError::Network(message)),
            },
    {
        match body {
            Ok(bytes) => Ok(bytes),
            Err(message) => Err(RegistryError::Network(message)),
        }
    }

    /// What to send to publish a crate; `json` is the metadata as it goes into the body.
    pub fn publish(
        &self,
        json: Result<Vec<u8>, serde_json::Error>,
        crate_data: &[u8],
        auth_token: Option<&str>,
    ) -> (request: Result<PublishRequest, RegistryError>)
        ensures
            if !self.writable {
                request == Err::<PublishRequest, RegistryError>(RegistryError::NotSupported)
            } else {
                match json {
                    Err(e) => exists|own: String| #[trigger]
                        vstd::string::to_string_from_display_ensures(&e, own) && is_network_error(
                            request,
                            "Failed to serialize metadata: "@ + own@,
                        ),
                    Ok(json) => request matches Ok(r) && {
                        &&& r.url@ == self.api_url@ + "/api/v1/crates/new"@
                        &&& r.body@ == publish_body::framed(json@, crate_data@)
                        &&& text::opt_view(r.authorization) == text::opt_str(auth_token)
                    },
                }
            },
    {
        if !self.writable {
            return Err(RegistryError::NotSupported);
        }
        match json {
            Err(e) => {
                let own = e.to_string();
                Err(
                    RegistryError::Network(
                        String::from_str("Failed to serialize metadata: ").concat(own.as_str()),
                    ),
                )
            },
            Ok(json) => {
                let body = write_publish_body(json.as_slice(), crate_data);
                let url = self.api_url.clone().concat("/api/v1/crates/new");
                let authorization = match auth_token {
                    Some(token) => Some(String::from_str(token)),
                    None => None,
                };
                Ok(PublishRequest { url, body, authorization })
            },
        }
    }

    /// Goes on with publishing when the status is known, or when nothing came back. The
    /// checksum is computed upstream; what stands for it here says that the crate was
    /// passed on.
    pub fn publish_status(sent: Result<(u16, String), String>) -> (step: StatusStep<String>)
        ensures
            match sent {
                Err(message) => step == StatusStep::<String>::Done(
                    Err(RegistryError::Network(message)),
                ),
                Ok((code, _)) => if is_success(code) {
                    step matches StatusStep::Done(Ok(sum)) && sum@ == "forwarded"@
                } else {
                    step is ReadBody
                },
            },
    {
        match sent {
            Err(message) => StatusStep::Done(Err(RegistryError::Network(message))),
            Ok((code, _)) => {
                if 200 <= code && code <= 299 {
                    StatusStep::Done(Ok(String::from_str("forwarded")))
                } else {
                    StatusStep::ReadBody
                }
            },
        }
    }

    /// Ends publishing when the crate was refused; the body that came with the refusal is
    /// passed on, as far as it could be read.
    pub fn publish_refused(status: &str, body: Result<String, String>) -> (error: RegistryError)
        ensures
            error matches RegistryError::Network(m) && m@ == status_message(status@) + ": "@ + (
            match body {
                Ok(b) => b@,
                Err(_) => Seq::empty(),
            }),
    {
        let body = match body {
            Ok(b) => b,
            Err(_) => String::new(),
        };
        RegistryError::Network(
            String::from_str("upstream returned ").concat(status).concat(": ").concat(
                body.as_str(),
            ),
        )
    }
}

} // verus!
