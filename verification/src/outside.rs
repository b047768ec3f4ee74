//! The crate's trusted boundary: the calls into `openssl` and `rand` that
//! the routing core makes, each behind a wrapper whose contract Verus
//! believes.
use vstd::prelude::*;
use crate::pem::has_pem_encryption_header;

verus! {

/// The longest byte slice OpenSSL's memory BIO accepts; a longer one
/// makes `MemBioSlice::new` abort, so the wrappers refuse it.
pub const PEM_LEN_LIMIT: usize = 0x7fff_ffff;

/// Whether `openssl` accepts these bytes as a PEM-encoded X.509
/// certificate. Parsing an unencrypted PEM depends on the bytes alone, so
/// the outcome has a name; nothing further is assumed of it.
pub uninterp spec fn is_valid_cert_pem(pem: Seq<u8>) -> bool;

/// Whether `openssl` accepts these bytes as a PEM-encoded private key
/// when handed the empty passphrase.
pub uninterp spec fn is_valid_key_pem(pem: Seq<u8>) -> bool;

/// Certificate and key bytes the library installs a context from: small
/// enough for OpenSSL's memory BIO, the certificate free of the PEM
/// encryption header (an encrypted one cannot be loaded without asking
/// the environment for a passphrase), and both accepted by `openssl`.
pub open spec fn acceptable_context_pems(cert: Seq<u8>, key: Seq<u8>) -> bool {
    &&& cert.len() <= PEM_LEN_LIMIT
    &&& key.len() <= PEM_LEN_LIMIT
    &&& !has_pem_encryption_header(cert)
    &&& is_valid_cert_pem(cert)
    &&& is_valid_key_pem(key)
}

/// Relies on `openssl::x509::X509::from_pem`: it deserializes a
/// certificate from PEM bytes and returns `Ok` exactly when they hold
/// one. On bytes without the PEM encryption header no passphrase callback
/// can be consulted, so the outcome is a function of the bytes alone; the
/// length bound keeps the slice within what the memory BIO accepts.
#[verifier::external_body]
pub(crate) fn certificate_pem_parses(pem: &[u8]) -> (r: bool)
    requires
        pem@.len() <= PEM_LEN_LIMIT,
        !has_pem_encryption_header(pem@),
    ensures
        r == is_valid_cert_pem(pem@),
{
    openssl::x509::X509::from_pem(pem).is_ok()
}

/// Relies on `openssl::pkey::PKey::private_key_from_pem_passphrase`: it
/// deserializes a private key from PEM bytes with the given passphrase —
/// here the empty one, so no callback and no environment is consulted and
/// the outcome is a function of the bytes alone; an encrypted key the
/// empty passphrase cannot open is refused. The length bound keeps the
/// slice within what the memory BIO accepts.
#[verifier::external_body]
pub(crate) fn private_key_pem_parses(pem: &[u8]) -> (r: bool)
    requires
        pem@.len() <= PEM_LEN_LIMIT,
    ensures
        r == is_valid_key_pem(pem@),
{
    openssl::pkey::PKey::private_key_from_pem_passphrase(pem, b"").is_ok()
}

/// Relies on `rand::random`: a fresh value from the thread-local
/// generator. Nothing is promised of a random value.
#[verifier::external_body]
pub(crate) fn random_number() -> usize {
    rand::random::<u64>() as usize
}

} // verus!
