//! PEM files.

use rustls::pki_types::PrivateKeyDer;
use vstd::prelude::*;

verus! {

/// A certificate in DER, or the message of what is wrong with its section.
pub type PemCert = Result<Vec<u8>, String>;

/// What stands in a `PemCert`.
pub open spec fn pem_cert_view(cert: PemCert) -> Result<Seq<u8>, Seq<char>> {
    match cert {
        Ok(der) => Ok(der@),
        Err(message) => Err(message@),
    }
}

/// What stands in a list of `PemCert`s.
pub open spec fn pem_certs_view(certs: Seq<PemCert>) -> Seq<Result<Seq<u8>, Seq<char>>> {
    certs.map_values(|cert: PemCert| pem_cert_view(cert))
}

/// What `rustls_pemfile::certs` finds in the bytes of a PEM file.
pub uninterp spec fn pem_certs(pem: Seq<u8>) -> Seq<Result<Seq<u8>, Seq<char>>>;

/// `rustls_pemfile::certs` goes through the sections of a PEM file in order. It yields the
/// content of each certificate and the error of each section that cannot be read, and leaves
/// the other sections out.
#[verifier::external_body]
pub(crate) fn read_certs(pem: &[u8]) -> (certs: Vec<PemCert>)
    ensures
        pem_certs_view(certs@) == pem_certs(pem@),
{
    let mut reader: &[u8] = pem;
    rustls_pemfile::certs(&mut reader)
        .map(
            |cert|
                match cert {
                    Ok(der) => Ok(der.to_vec()),
                    Err(error) => Err(error.to_string()),
                },
        )
        .collect()
}

/// How a private key is encoded.
#[derive(Clone, Copy, PartialEq, Eq, Structural, Debug)]
pub enum KeyFormat {
    Pkcs1,
    Sec1,
    Pkcs8,
}

/// A private key in DER.
pub struct PrivateKey {
    pub format: KeyFormat,
    pub der: Vec<u8>,
}

/// What stands in the outcome of looking for a private key.
pub open spec fn key_view(key: Result<Option<PrivateKey>, String>) -> Result<
    Option<(KeyFormat, Seq<u8>)>,
    Seq<char>,
> {
    match key {
        Ok(Some(found)) => Ok(Some((found.format, found.der@))),
        Ok(None) => Ok(None),
        Err(message) => Err(message@),
    }
}

/// What `rustls_pemfile::private_key` finds in the bytes of a PEM file.
pub uninterp spec fn pem_private_key(pem: Seq<u8>) -> Result<
    Option<(KeyFormat, Seq<u8>)>,
    Seq<char>,
>;

/// `rustls_pemfile::private_key` goes through the sections of a PEM file up to the first
/// private key of any format, which it yields, or up to the first section that cannot be
/// read, whose error it yields.
#[verifier::external_body]
pub(crate) fn read_private_key(pem: &[u8]) -> (key: Result<Option<PrivateKey>, String>)
    ensures
        key_view(key) == pem_private_key(pem@),
{
    let mut reader: &[u8] = pem;
    match rustls_pemfile::private_key(&mut reader) {
        Ok(None) => Ok(None),
        Ok(Some(key)) => {
            let der: Vec<u8> = key.secret_der().to_vec();
            let format = match key {
                PrivateKeyDer::Pkcs1(_) => KeyFormat::Pkcs1,
                PrivateKeyDer::Sec1(_) => KeyFormat::Sec1,
                _ => KeyFormat::Pkcs8,
            };
            Ok(Some(PrivateKey { format, der }))
        },
        Err(error) => Err(error.to_string()),
    }
}

} // verus!
