//! The certificates and the private key that a TLS server is set up with.

use crate::text::{cat2, cat3, cat4};
use rustls::pki_types::PrivateKeyDer;
use vstd::prelude::*;

verus! {

/// How a private key is encoded.
#[derive(Debug, Clone, Copy, PartialEq, Eq, Structural)]
pub enum KeyKind {
    /// `RSA PRIVATE KEY`.
    Pkcs1,
    /// `PRIVATE KEY`.
    Pkcs8,
    /// `EC PRIVATE KEY`.
    Sec1,
}

/// A private key: its encoding, and its bytes.
pub struct PrivateKey {
    pub kind: KeyKind,
    pub der: Vec<u8>,
}

impl View for PrivateKey {
    type V = (KeyKind, Seq<u8>);

    open spec fn view(&self) -> (KeyKind, Seq<u8>) {
        (self.kind, self.der@)
    }
}

/// What a TLS server shows, and what it proves it with.
pub struct TlsIdentity {
    /// The chain of certificates, the server's own first.
    pub certificates: Vec<Vec<u8>>,
    pub key: PrivateKey,
}

/// The bytes of each certificate.
pub open spec fn chain_view(v: Seq<Vec<u8>>) -> Seq<Seq<u8>> {
    v.map_values(|c: Vec<u8>| c@)
}

/// The certificates in a PEM file, in order; or what is wrong with the file.
pub uninterp spec fn pem_certificates(pem: Seq<u8>) -> Result<Seq<Seq<u8>>, Seq<char>>;

/// The first private key in a PEM file, if it has one; or what is wrong with
/// the file.
pub uninterp spec fn pem_private_key(pem: Seq<u8>) -> Result<Option<(KeyKind, Seq<u8>)>, Seq<char>>;

/// `rustls_pemfile::certs`: the certificates in a PEM file, or the text of
/// the first error. What comes out depends on the bytes alone.
#[verifier::external_body]
fn certificates_in(pem: &[u8]) -> (r: Result<Vec<Vec<u8>>, String>)
    ensures
        match r {
            Ok(v) => pem_certificates(pem@) == Ok::<Seq<Seq<u8>>, Seq<char>>(chain_view(v@)),
            Err(m) => pem_certificates(pem@) == Err::<Seq<Seq<u8>>, Seq<char>>(m@),
        },
{
    let mut reader = pem;
    let certs = rustls_pemfile::certs(&mut reader);
    certs.map(|c| c.map(|der| der.to_vec()).map_err(|e| e.to_string())).collect()
}

/// `rustls_pemfile::private_key`: the first private key in a PEM file, or the
/// text of an error in front of it. What comes out depends on the bytes alone.
#[verifier::external_body]
fn private_key_in(pem: &[u8]) -> (r: Result<Option<PrivateKey>, String>)
    ensures
        match r {
            Ok(Some(k)) => pem_private_key(pem@) == Ok::<Option<(KeyKind, Seq<u8>)>, Seq<char>>(Some(k@)),
            Ok(None) => pem_private_key(pem@) == Ok::<Option<(KeyKind, Seq<u8>)>, Seq<char>>(None),
            Err(m) => pem_private_key(pem@) == Err::<Option<(KeyKind, Seq<u8>)>, Seq<char>>(m@),
        },
{
    let mut reader = pem;
    let key = |kind: KeyKind, der: &[u8]| Ok(Some(PrivateKey { kind, der: der.to_vec() }));
    match rustls_pemfile::private_key(&mut reader) {
        Ok(Some(PrivateKeyDer::Pkcs1(k))) => key(KeyKind::Pkcs1, k.secret_pkcs1_der()),
        Ok(Some(PrivateKeyDer::Pkcs8(k))) => key(KeyKind::Pkcs8, k.secret_pkcs8_der()),
        Ok(Some(PrivateKeyDer::Sec1(k))) => key(KeyKind::Sec1, k.secret_sec1_der()),
        Ok(Some(_)) => Err("a private key of another kind".to_string()),
        Ok(None) => Ok(None),
        Err(e) => Err(e.to_string()),
    }
}

/// The certificates in the PEM file at `path`. A file without any will not do.
pub fn certificate_chain(path: &str, pem: &[u8]) -> (r: Result<Vec<Vec<u8>>, String>)
    ensures
        match pem_certificates(pem@) {
            Err(m) => r matches Err(e) && e@ == "parsing TLS cert "@ + path@ + ": "@ + m,
            Ok(c) => if c.len() == 0 {
                r matches Err(e) && e@ == "no certificates found in "@ + path@
            } else {
                r matches Ok(v) && chain_view(v@) == c
            },
        },
{
    match certificates_in(pem) {
        Err(m) => Err(cat4("parsing TLS cert ", path, ": ", m.as_str())),
        Ok(v) => if v.len() == 0 {
            Err(cat2("no certificates found in ", path))
        } else {
            Ok(v)
        },
    }
}

/// The private key in the PEM file at `path`. A file without one will not do.
pub fn private_key(path: &str, pem: &[u8]) -> (r: Result<PrivateKey, String>)
    ensures
        match pem_private_key(pem@) {
            Err(m) => r matches Err(e) && e@ == "parsing TLS key "@ + path@ + ": "@ + m,
            Ok(None) => r matches Err(e) && e@ == "no private key found in "@ + path@,
            Ok(Some(k)) => r matches Ok(found) && found@ == k,
        },
{
    match private_key_in(pem) {
        Err(m) => Err(cat4("parsing TLS key ", path, ": ", m.as_str())),
        Ok(None) => Err(cat2("no private key found in ", path)),
        Ok(Some(k)) => Ok(k),
    }
}

/// What is said of a file that could not be read.
pub open spec fn unread(what: Seq<char>, path: Seq<char>, reason: Seq<char>) -> Seq<char> {
    "reading TLS "@ + what + " "@ + path + ": "@ + reason
}

/// What is said of a file that could not be read.
fn unread_text(what: &str, path: &str, reason: &str) -> (r: String)
    ensures
        r@ == unread(what@, path@, reason@),
{
    let head = cat4("reading TLS ", what, " ", path);
    let out = cat3(head.as_str(), ": ", reason);
    assert(out@ =~= unread(what@, path@, reason@));
    out
}

/// What a TLS server is set up with, given what reading the two PEM files
/// came to. The first thing that is wrong is reported, the certificates first.
pub fn load_server_config(
    cert_path: &str,
    cert: &Result<Vec<u8>, String>,
    key_path: &str,
    key: &Result<Vec<u8>, String>,
) -> (r: Result<TlsIdentity, String>)
    ensures
        match *cert {
            Err(why) => r matches Err(e) && e@ == unread("cert"@, cert_path@, why@),
            Ok(pem) => match pem_certificates(pem@) {
                Err(m) => r matches Err(e) && e@ == "parsing TLS cert "@ + cert_path@ + ": "@ + m,
                Ok(c) => if c.len() == 0 {
                    r matches Err(e) && e@ == "no certificates found in "@ + cert_path@
                } else {
                    match *key {
                        Err(why) => r matches Err(e) && e@ == unread("key"@, key_path@, why@),
                        Ok(text) => match pem_private_key(text@) {
                            Err(m) => r matches Err(e) && e@ == "parsing TLS key "@ + key_path@ + ": "@ + m,
                            Ok(None) => r matches Err(e) && e@ == "no private key found in "@ + key_path@,
                            Ok(Some(k)) => r matches Ok(id) && chain_view(id.certificates@) == c && id.key@ == k,
                        },
                    }
                },
            },
        },
{
    let certificates = match cert {
        Err(why) => {
            return Err(unread_text("cert", cert_path, why.as_str()));
        },
        Ok(pem) => match certificate_chain(cert_path, pem.as_slice()) {
            Err(e) => {
                return Err(e);
            },
            Ok(v) => v,
        },
    };
    match key {
        Err(why) => Err(unread_text("key", key_path, why.as_str())),
        Ok(pem) => match private_key(key_path, pem.as_slice()) {
            Err(e) => Err(e),
            Ok(key) => Ok(TlsIdentity { certificates, key }),
        },
    }
}

} // verus!
