//! Settings and error types of the server's services: TLS certificates
//! (and the server setup made from them) and the job queue.
use vstd::prelude::*;
use std::sync::Arc;
use rustls::pki_types::{CertificateDer, PrivateKeyDer};
use rustls::ServerConfig;
use crate::text::{push_str, to_string};

verus! {

/// Where the TLS certificate chain and private key are read from.
#[derive(Debug, Clone)]
pub struct TlsConfig {
    /// The PEM certificate chain file.
    pub cert_path: String,
    /// The PEM private key file.
    pub key_path: String,
}

impl TlsConfig {
    /// The certificate and key at these paths.
    pub fn from_files(cert: &str, key: &str) -> (r: TlsConfig)
        ensures
            r.cert_path@ == cert@,
            r.key_path@ == key@,
    {
        TlsConfig { cert_path: to_string(cert), key_path: to_string(key) }
    }
}

/// Why TLS could not be set up.
#[derive(Debug)]
pub enum TlsError {
    Io(String),
    InvalidCert(String),
    InvalidKey(String),
    InvalidConfig(String),
}

/// The message of a TLS error.
pub open spec fn tls_error_text(e: TlsError) -> Seq<char> {
    match e {
        TlsError::Io(s) => "TLS IO error: "@ + s@,
        TlsError::InvalidCert(s) => "Invalid certificate: "@ + s@,
        TlsError::InvalidKey(s) => "Invalid private key: "@ + s@,
        TlsError::InvalidConfig(s) => "Invalid TLS config: "@ + s@,
    }
}

impl TlsError {
    /// The error's message.
    pub fn message(&self) -> (r: String)
        ensures
            r@ == tls_error_text(*self),
    {
        let (head, body) = match self {
            TlsError::Io(s) => ("TLS IO error: ", s),
            TlsError::InvalidCert(s) => ("Invalid certificate: ", s),
            TlsError::InvalidKey(s) => ("Invalid private key: ", s),
            TlsError::InvalidConfig(s) => ("Invalid TLS config: ", s),
        };
        let mut m = to_string(head);
        push_str(&mut m, body.as_str());
        m
    }
}

#[verifier::external_type_specification]
#[verifier::external_body]
pub struct ExCertificateDer<'a>(CertificateDer<'a>);

#[verifier::external_type_specification]
#[verifier::external_body]
pub struct ExPrivateKeyDer<'a>(PrivateKeyDer<'a>);

#[verifier::external_type_specification]
#[verifier::external_body]
pub struct ExServerConfig(ServerConfig);

/// Whether every PEM section of `pem` reads without error.
pub uninterp spec fn pem_certs_read(pem: Seq<u8>) -> bool;

/// Whether reading the PEM sections of `pem` meets a private key before
/// any error.
pub uninterp spec fn pem_key_found(pem: Seq<u8>) -> bool;

/// `rustls_pemfile::certs` over the bytes, collected: the certificates in
/// order, or the text of the first read error.
#[verifier::external_body]
fn read_certs(pem: &[u8]) -> (r: Result<Vec<CertificateDer<'static>>, String>)
    ensures
        r is Ok <==> pem_certs_read(pem@),
{
    let mut rd = pem;
    match rustls_pemfile::certs(&mut rd).collect::<Result<Vec<_>, _>>() {
        Ok(v) => Ok(v),
        Err(e) => Err(e.to_string()),
    }
}

/// `rustls_pemfile::private_key` over the bytes: the first private key
/// (PKCS#1, PKCS#8 or SEC1), none, or the text of a read error.
#[verifier::external_body]
fn read_private_key(pem: &[u8]) -> (r: Result<Option<PrivateKeyDer<'static>>, String>)
    ensures
        (r matches Ok(Some(_))) <==> pem_key_found(pem@),
{
    let mut rd = pem;
    match rustls_pemfile::private_key(&mut rd) {
        Ok(k) => Ok(k),
        Err(e) => Err(e.to_string()),
    }
}

/// `rustls::ServerConfig::builder().with_no_client_auth().with_single_cert`
/// with the process's crypto provider: the server setup, or the text of the
/// error when the chain and key do not make a certified key. Which of the
/// two comes back is not described.
#[verifier::external_body]
fn single_cert_config(certs: Vec<CertificateDer<'static>>, key: PrivateKeyDer<'static>) -> (r: Result<ServerConfig, String>) {
    match ServerConfig::builder().with_no_client_auth().with_single_cert(certs, key) {
        Ok(c) => Ok(c),
        Err(e) => Err(e.to_string()),
    }
}

/// The reason given when the key file holds no private key.
pub const NO_PRIVATE_KEY: &'static str = "No supported private key found in file. Expected PKCS8, RSA, or EC PEM.";

/// The TLS server setup from the bytes of a PEM certificate chain and of a
/// PEM private key: the chain must read, a key must be found, and rustls
/// must accept the pair.
pub fn tls_server_config(cert_pem: &[u8], key_pem: &[u8]) -> (r: Result<Arc<ServerConfig>, TlsError>)
    ensures
        !pem_certs_read(cert_pem@) ==> r matches Err(TlsError::InvalidCert(_)),
        pem_certs_read(cert_pem@) && !pem_key_found(key_pem@) ==> (r matches Err(TlsError::InvalidKey(m))
            && m@ == NO_PRIVATE_KEY@),
        r is Ok ==> pem_certs_read(cert_pem@) && pem_key_found(key_pem@),
        pem_certs_read(cert_pem@) && pem_key_found(key_pem@) ==> (r is Ok || r matches Err(
            TlsError::InvalidConfig(_),
        )),
        r matches Err(e) ==> !(e is Io),
{
    let certs = tls_certs(cert_pem)?;
    let key = tls_private_key(key_pem)?;
    tls_config(certs, key)
}

/// The certificate chain in PEM bytes, or `InvalidCert` with the reason.
pub fn tls_certs(cert_pem: &[u8]) -> (r: Result<Vec<CertificateDer<'static>>, TlsError>)
    ensures
        r is Ok <==> pem_certs_read(cert_pem@),
        r matches Err(e) ==> e is InvalidCert,
{
    match read_certs(cert_pem) {
        Ok(c) => Ok(c),
        Err(m) => Err(TlsError::InvalidCert(m)),
    }
}

/// The first private key in PEM bytes, or `InvalidKey` saying that none was
/// found.
pub fn tls_private_key(key_pem: &[u8]) -> (r: Result<PrivateKeyDer<'static>, TlsError>)
    ensures
        r is Ok <==> pem_key_found(key_pem@),
        r matches Err(e) ==> (e matches TlsError::InvalidKey(m) && m@ == NO_PRIVATE_KEY@),
{
    match read_private_key(key_pem) {
        Ok(Some(k)) => Ok(k),
        _ => Err(TlsError::InvalidKey(to_string(NO_PRIVATE_KEY))),
    }
}

/// The server setup for a certificate chain and its private key, or
/// `InvalidConfig` with rustls's reason.
pub fn tls_config(certs: Vec<CertificateDer<'static>>, key: PrivateKeyDer<'static>) -> (r: Result<
    Arc<ServerConfig>,
    TlsError,
>)
    ensures
        r matches Err(e) ==> e is InvalidConfig,
{
    match single_cert_config(certs, key) {
        Ok(c) => Ok(Arc::new(c)),
        Err(m) => Err(TlsError::InvalidConfig(m)),
    }
}

/// Why a job could not be queued.
#[derive(Debug)]
pub enum QueueError {
    QueueFull,
}

impl QueueError {
    /// The error's message.
    pub fn message(&self) -> (r: String)
        ensures
            r@ == "queue is full"@,
    {
        to_string("queue is full")
    }
}

} // verus!
