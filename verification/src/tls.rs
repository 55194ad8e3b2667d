//! The node's TLS identity for QUIC: its certificate chain and private key,
//! taken from PEM text.

use vstd::prelude::*;

verus! {

/// The ALPN protocol that node connections use: the bytes of "node-v1".
pub const NODE_ALPN: [u8; 7] = [0x6e, 0x6f, 0x64, 0x65, 0x2d, 0x76, 0x31];

/// Why a TLS identity could not be taken from PEM text.
#[derive(Clone, Copy, Debug, PartialEq, Eq, Structural)]
pub enum TlsIdentityError {
    /// The certificate text does not parse.
    BadCertificates,
    /// The key text does not parse.
    BadPrivateKey,
    /// The key text parses but holds no private key.
    NoPrivateKey,
}

/// The DER certificates that PEM text `pem` holds, in order; `None` when
/// the text does not parse.
pub uninterp spec fn pem_certificates(pem: Seq<u8>) -> Option<Seq<Seq<u8>>>;

/// The first private key that PEM text `pem` holds, as its kind (1 for
/// PKCS#1, 2 for SEC1, 3 for PKCS#8) and its DER bytes; `Some(None)` when
/// the text holds no key, `None` when it does not parse.
pub uninterp spec fn pem_private_key(pem: Seq<u8>) -> Option<Option<(u8, Seq<u8>)>>;

/// The bytes of each certificate of `v`.
pub open spec fn certificates_view(v: Seq<Vec<u8>>) -> Seq<Seq<u8>> {
    v.map_values(|c: Vec<u8>| c@)
}

/// A private key with its DER bytes as a sequence.
pub open spec fn key_view(k: Option<(u8, Vec<u8>)>) -> Option<(u8, Seq<u8>)> {
    match k {
        Some((kind, der)) => Some((kind, der@)),
        None => None,
    }
}

/// `rustls_pemfile::certs` over `pem`, collected: `None` at the first error
/// that the parser yields, otherwise each certificate's DER bytes, in order.
/// The result is named as a function of the text alone.
#[verifier::external_body]
fn certificates_from_pem(pem: &[u8]) -> (res: Option<Vec<Vec<u8>>>)
    ensures
        (res is Some) == (pem_certificates(pem@) is Some),
        res matches Some(v) ==> pem_certificates(pem@) == Some(certificates_view(v@)),
{
    let mut rd: &[u8] = pem;
    match rustls_pemfile::certs(&mut rd).collect::<Result<Vec<_>, _>>() {
        Ok(certs) => Some(certs.into_iter().map(|c| c.to_vec()).collect()),
        Err(_) => None,
    }
}

/// `rustls_pemfile::private_key` over `pem`: `None` when the parser fails,
/// `Some(None)` when it finds no key, otherwise the key's kind (1 PKCS#1,
/// 2 SEC1, 3 PKCS#8, 0 for a kind that the crate may add) and its DER bytes.
/// The result is named as a function of the text alone.
#[verifier::external_body]
fn private_key_from_pem(pem: &[u8]) -> (res: Option<Option<(u8, Vec<u8>)>>)
    ensures
        (res is Some) == (pem_private_key(pem@) is Some),
        res matches Some(k) ==> pem_private_key(pem@) == Some(key_view(k)),
{
    let mut rd: &[u8] = pem;
    match rustls_pemfile::private_key(&mut rd) {
        Ok(Some(key)) => {
            let kind: u8 = match &key {
                rustls::pki_types::PrivateKeyDer::Pkcs1(_) => 1,
                rustls::pki_types::PrivateKeyDer::Sec1(_) => 2,
                rustls::pki_types::PrivateKeyDer::Pkcs8(_) => 3,
                _ => 0,
            };
            Some(Some((kind, key.secret_der().to_vec())))
        },
        Ok(None) => Some(None),
        Err(_) => None,
    }
}

/// The node's certificate chain and private key (kind and DER bytes), taken
/// from the PEM texts `cert_pem` and `key_pem`: the certificates are parsed
/// first, then the key.
pub fn server_identity(cert_pem: &[u8], key_pem: &[u8]) -> (res: Result<
    (Vec<Vec<u8>>, u8, Vec<u8>),
    TlsIdentityError,
>)
    ensures
        match (pem_certificates(cert_pem@), pem_private_key(key_pem@)) {
            (None, _) => res == Err::<(Vec<Vec<u8>>, u8, Vec<u8>), TlsIdentityError>(
                TlsIdentityError::BadCertificates,
            ),
            (Some(_), None) => res == Err::<(Vec<Vec<u8>>, u8, Vec<u8>), TlsIdentityError>(
                TlsIdentityError::BadPrivateKey,
            ),
            (Some(_), Some(None)) => res == Err::<(Vec<Vec<u8>>, u8, Vec<u8>), TlsIdentityError>(
                TlsIdentityError::NoPrivateKey,
            ),
            (Some(c), Some(Some((k, d)))) => res matches Ok((v, kind, der)) && certificates_view(v@) == c
                && kind == k && der@ == d,
        },
{
    let certs = match certificates_from_pem(cert_pem) {
        Some(c) => c,
        None => return Err(TlsIdentityError::BadCertificates),
    };
    match private_key_from_pem(key_pem) {
        None => Err(TlsIdentityError::BadPrivateKey),
        Some(None) => Err(TlsIdentityError::NoPrivateKey),
        Some(Some((kind, der))) => Ok((certs, kind, der)),
    }
}

} // verus!
