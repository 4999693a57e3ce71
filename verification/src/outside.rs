//! What the crate takes from outside on trust: the types it carries through
//! without looking inside, and the functions it calls.

use rustls::pki_types::PrivateKeyDer;
use sha2::Digest;
use vstd::prelude::*;
use vstd::utf8::*;

use crate::text;
use crate::tls;
use crate::tls::{KeyForm, PrivateKey};

verus! {

/// `serde_json::Error`: why a JSON text was refused, or a value not written.
#[verifier::external_type_specification]
#[verifier::external_body]
pub struct ExJsonError(serde_json::Error);

/// `serde_json::Value`: a JSON value of any shape.
#[verifier::external_type_specification]
#[verifier::external_body]
pub struct ExJsonValue(serde_json::Value);

/// `std::io::Error`: why a file could not be read or written.
#[verifier::external_type_specification]
#[verifier::external_body]
pub struct ExIoError(std::io::Error);

/// The text that `str::to_lowercase` makes of a text.
pub uninterp spec fn lowercase_of(s: Seq<char>) -> Seq<char>;

/// `str::to_lowercase` maps a text to its Unicode lower case. The result depends on
/// the text alone. In ASCII text that is the case of the letters `A` to `Z` dropped.
pub assume_specification[ str::to_lowercase ](s: &str) -> (lower: String)
    ensures
        lower@ == lowercase_of(s@),
        is_ascii_chars(s@) ==> lower@ == text::ascii_lower(s@),
;

/// The SHA-256 digest of some bytes.
pub uninterp spec fn sha256_of(data: Seq<u8>) -> Seq<u8>;

/// `sha2::Sha256::digest`: the SHA-256 digest of the data, 32 bytes that depend on
/// the data alone.
#[verifier::external_body]
pub(crate) fn sha256(data: &[u8]) -> (digest: Vec<u8>)
    ensures
        digest@ == sha256_of(data@),
        digest@.len() == 32,
{
    sha2::Sha256::digest(data).to_vec()
}

/// The host of a URL, where the text is a URL and has one.
pub uninterp spec fn url_host_of(url: Seq<char>) -> Option<Seq<char>>;

/// `url::Url::parse` followed by `url::Url::host_str`: the host of a URL as the URL
/// standard serialises it, and nothing where the text does not parse as a URL or the
/// URL has no host. The result depends on the text alone.
#[verifier::external_body]
pub(crate) fn url_host(url: &str) -> (host: Option<String>)
    ensures
        text::opt_view(host) == url_host_of(url@),
{
    match url::Url::parse(url) {
        Ok(parsed) => parsed.host_str().map(|h| h.to_string()),
        Err(_) => None,
    }
}

/// The certificates in a PEM file, where the file can be read.
pub uninterp spec fn pem_certs_of(pem: Seq<u8>) -> Option<Seq<Seq<u8>>>;

/// `rustls_pemfile::certs`: the bytes of the certificates in a PEM file, in order. Sections
/// that hold something else are passed over. The first section that is broken is the
/// answer. What is found, and whether something is broken, depends on the file alone.
#[verifier::external_body]
pub(crate) fn pem_certs(pem: &[u8]) -> (certs: Result<Vec<Vec<u8>>, std::io::Error>)
    ensures
        match certs {
            Ok(found) => pem_certs_of(pem@) == Some(tls::ders(found@)),
            Err(_) => pem_certs_of(pem@) is None,
        },
{
    let mut rest: &[u8] = pem;
    let certs = rustls_pemfile::certs(&mut rest).map(|cert| cert.map(|c| c.to_vec())).collect();
    certs
}

/// The first private key in a PEM file, if it holds one, where the file can be read.
pub uninterp spec fn pem_key_of(pem: Seq<u8>) -> Option<Option<(KeyForm, Seq<u8>)>>;

/// `rustls_pemfile::private_key`: the first private key in a PEM file, with the form that
/// its section is marked with. Sections that hold something else are passed over. A
/// section before it that is broken is the answer. What is found, and whether something
/// is broken, depends on the file alone.
#[verifier::external_body]
pub(crate) fn pem_key(pem: &[u8]) -> (key: Result<Option<PrivateKey>, std::io::Error>)
    ensures
        match key {
            Ok(Some(found)) => pem_key_of(pem@) == Some(Some(tls::key_view(found))),
            Ok(None) => pem_key_of(pem@) == Some(None::<(KeyForm, Seq<u8>)>),
            Err(_) => pem_key_of(pem@) is None,
        },
{
    let mut rest: &[u8] = pem;
    let key = rustls_pemfile::private_key(&mut rest)?;
    Ok(key.map(|k| {
        let form = match &k {
            PrivateKeyDer::Pkcs1(_) => KeyForm::Pkcs1,
            PrivateKeyDer::Sec1(_) => KeyForm::Sec1,
            PrivateKeyDer::Pkcs8(_) => KeyForm::Pkcs8,
            _ => KeyForm::Other,
        };
        PrivateKey { form, der: k.secret_der().to_vec() }
    }))
}

} // verus!
