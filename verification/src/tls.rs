//! What the server shows of itself over TLS: certificates and the key to them, read from
//! PEM files.

use vstd::prelude::*;

use crate::outside;
use crate::outside::{pem_certs, pem_key};

verus! {

/// How a private key is encoded.
#[derive(Debug, Clone, Copy)]
pub enum KeyForm {
    Pkcs1,
    Sec1,
    Pkcs8,
    /// In a form that has no name here.
    Other,
}

/// A private key.
#[derive(Debug)]
pub struct PrivateKey {
    pub form: KeyForm,
    pub der: Vec<u8>,
}

/// Certificates, the server's own first, and the key to it.
#[derive(Debug)]
pub struct Identity {
    pub certs: Vec<Vec<u8>>,
    pub key: PrivateKey,
}

/// Why there is no identity.
#[derive(Debug)]
pub enum IdentityError {
    /// The certificates could not be read.
    BadCertificate(std::io::Error),
    /// The key could not be read.
    BadKey(std::io::Error),
    /// There is no key.
    NoKey,
}

/// The bytes of some certificates.
pub open spec fn ders(certs: Seq<Vec<u8>>) -> Seq<Seq<u8>> {
    certs.map_values(|c: Vec<u8>| c@)
}

/// What a key says.
pub open spec fn key_view(key: PrivateKey) -> (KeyForm, Seq<u8>) {
    (key.form, key.der@)
}

impl IdentityError {
    /// What the error says.
    pub fn message(&self) -> (message: &'static str)
        ensures
            message@ == match *self {
                IdentityError::BadCertificate(_) => "Failed to parse TLS certificate"@,
                IdentityError::BadKey(_) => "Failed to parse TLS key"@,
                IdentityError::NoKey => "No private key found"@,
            },
    {
        match self {
            IdentityError::BadCertificate(_) => "Failed to parse TLS certificate",
            IdentityError::BadKey(_) => "Failed to parse TLS key",
            IdentityError::NoKey => "No private key found",
        }
    }
}

/// Puts an identity together from what was read of the certificates and of the key. A
/// certificate that cannot be read counts before a key that cannot.
pub fn make_identity(
    certs: Result<Vec<Vec<u8>>, std::io::Error>,
    key: Result<Option<PrivateKey>, std::io::Error>,
) -> (identity: Result<Identity, IdentityError>)
    ensures
        identity == match (certs, key) {
            (Err(e), _) => Err(IdentityError::BadCertificate(e)),
            (Ok(_), Err(e)) => Err(IdentityError::BadKey(e)),
            (Ok(_), Ok(None)) => Err(IdentityError::NoKey),
            (Ok(certs), Ok(Some(key))) => Ok(Identity { certs, key }),
        },
{
    let certs = match certs {
        Ok(certs) => certs,
        Err(e) => return Err(IdentityError::BadCertificate(e)),
    };
    match key {
        Ok(Some(key)) => Ok(Identity { certs, key }),
        Ok(None) => Err(IdentityError::NoKey),
        Err(e) => Err(IdentityError::BadKey(e)),
    }
}

/// Reads an identity: the certificates of one PEM file and the first key of another.
pub fn server_identity(cert_pem: &[u8], key_pem: &[u8]) -> (identity: Result<
    Identity,
    IdentityError,
>)
    ensures
        match (outside::pem_certs_of(cert_pem@), outside::pem_key_of(key_pem@)) {
            (None, _) => identity matches Err(IdentityError::BadCertificate(_)),
            (Some(_), None) => identity matches Err(IdentityError::BadKey(_)),
            (Some(_), Some(None)) => identity matches Err(IdentityError::NoKey),
            (Some(certs), Some(Some(key))) => identity matches Ok(i) && ders(i.certs@) == certs
                && key_view(i.key) == key,
        },
{
    make_identity(pem_certs(cert_pem), pem_key(key_pem))
}

} // verus!
