//! Reading certificates and private keys out of PEM text.
use vstd::prelude::*;

verus! {

/// Why no DER item could be taken from PEM text.
#[derive(Clone, Copy, Debug, PartialEq, Eq, Structural)]
pub enum PemError {
    /// The text holds no item of the kind asked for.
    NotFound,
    /// A PEM section could not be read.
    Malformed,
}

/// What the first item of `rustls_pemfile::certs` is for `pem`: `None` if
/// there is none, `Some(None)` if reading failed, else the certificate's DER
/// bytes.
pub uninterp spec fn first_cert_of(pem: Seq<u8>) -> Option<Option<Seq<u8>>>;

/// What `rustls_pemfile::private_key` returns for `pem`: `None` if reading
/// failed, `Some(None)` if there is no private key, else the key's DER bytes.
pub uninterp spec fn first_key_of(pem: Seq<u8>) -> Option<Option<Seq<u8>>>;

/// The read error `rustls_pemfile` reports, carried through unread.
#[verifier::external_type_specification]
#[verifier::external_body]
pub struct ExIoError(std::io::Error);

/// Relies on `rustls_pemfile::certs`: the first certificate section of the
/// text, or the error met before it; the result depends on the text alone.
#[verifier::external_body]
fn pem_first_cert(pem: &[u8]) -> (r: Option<Result<Vec<u8>, std::io::Error>>)
    ensures
        match r {
            None => first_cert_of(pem@) == None::<Option<Seq<u8>>>,
            Some(Ok(der)) => first_cert_of(pem@) == Some(Some(der@)),
            Some(Err(_)) => first_cert_of(pem@) == Some(None::<Seq<u8>>),
        },
{
    let mut reader: &[u8] = pem;
    let first = rustls_pemfile::certs(&mut reader).next();
    first.map(|item| item.map(|der| der.as_ref().to_vec()))
}

/// Relies on `rustls_pemfile::private_key`: the first private key section
/// of any type, none, or the error met before it; the result depends on the
/// text alone.
#[verifier::external_body]
fn pem_first_key(pem: &[u8]) -> (r: Result<Option<Vec<u8>>, std::io::Error>)
    ensures
        match r {
            Err(_) => first_key_of(pem@) == None::<Option<Seq<u8>>>,
            Ok(None) => first_key_of(pem@) == Some(None::<Seq<u8>>),
            Ok(Some(der)) => first_key_of(pem@) == Some(Some(der@)),
        },
{
    let mut reader: &[u8] = pem;
    rustls_pemfile::private_key(&mut reader).map(|key| key.map(|der| der.secret_der().to_vec()))
}

/// The DER bytes of the first certificate in PEM text.
pub fn cert_from_pem(pem: &[u8]) -> (r: Result<Vec<u8>, PemError>)
    ensures
        match first_cert_of(pem@) {
            Some(Some(der)) => r is Ok && r->Ok_0@ == der,
            Some(None) => r == Err::<Vec<u8>, PemError>(PemError::Malformed),
            None => r == Err::<Vec<u8>, PemError>(PemError::NotFound),
        },
{
    match pem_first_cert(pem) {
        Some(Ok(der)) => Ok(der),
        Some(Err(_)) => Err(PemError::Malformed),
        None => Err(PemError::NotFound),
    }
}

/// The DER bytes of the first private key in PEM text.
pub fn key_from_pem(pem: &[u8]) -> (r: Result<Vec<u8>, PemError>)
    ensures
        match first_key_of(pem@) {
            Some(Some(der)) => r is Ok && r->Ok_0@ == der,
            Some(None) => r == Err::<Vec<u8>, PemError>(PemError::NotFound),
            None => r == Err::<Vec<u8>, PemError>(PemError::Malformed),
        },
{
    match pem_first_key(pem) {
        Ok(Some(der)) => Ok(der),
        Ok(None) => Err(PemError::NotFound),
        Err(_) => Err(PemError::Malformed),
    }
}

} // verus!
