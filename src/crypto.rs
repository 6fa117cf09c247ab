//! The calls into the RSA and SHA-2 crates and the system's random source,
//! each behind a small item whose contract states what the call promises.
use vstd::prelude::*;
use rsa::pkcs1::{DecodeRsaPrivateKey, EncodeRsaPublicKey, LineEnding};
use rsa::rand_core::RngCore;
use sha2::Digest;

verus! {

/// What SHA-256 makes of a byte string.
pub uninterp spec fn sha256_of(data: Seq<u8>) -> Seq<u8>;

/// The PKCS#1 PEM text, with CRLF line endings, of the public half of the
/// key that a PKCS#1 PEM private key holds; `None` where the text holds no
/// valid key.
pub uninterp spec fn broker_public_pem(private_pem: Seq<char>) -> Option<Seq<char>>;

/// What RSA-OAEP over SHA-256 decryption under the private key held by a
/// PKCS#1 PEM text makes of a ciphertext; `None` where the text holds no
/// valid key or the ciphertext does not decrypt under it.
pub uninterp spec fn oaep_plaintext_of(private_pem: Seq<char>, ciphertext: Seq<u8>) -> Option<
    Seq<u8>,
>;

/// The view of an optional string.
pub open spec fn opt_text(o: Option<String>) -> Option<Seq<char>> {
    match o {
        Some(s) => Some(s@),
        None => None,
    }
}

/// The view of an optional byte vector.
pub open spec fn opt_bytes(o: Option<Vec<u8>>) -> Option<Seq<u8>> {
    match o {
        Some(v) => Some(v@),
        None => None,
    }
}

/// Relies on `DecodeRsaPrivateKey::from_pkcs1_pem`, `RsaPublicKey::from`
/// and `EncodeRsaPublicKey::to_pkcs1_pem` with CRLF line endings: the
/// public key's PEM text, a function of the private key's text alone.
#[verifier::external_body]
pub(crate) fn public_key_of(private_pem: &str) -> (r: Option<String>)
    ensures
        opt_text(r) == broker_public_pem(private_pem@),
{
    let key = rsa::RsaPrivateKey::from_pkcs1_pem(private_pem).ok()?;
    rsa::RsaPublicKey::from(&key).to_pkcs1_pem(LineEnding::CRLF).ok()
}

/// Relies on `DecodeRsaPrivateKey::from_pkcs1_pem` and
/// `RsaPrivateKey::decrypt` with OAEP padding over SHA-256, which uses no
/// blinding: the plaintext, a function of the key's text and the ciphertext.
#[verifier::external_body]
pub(crate) fn oaep_decrypt(private_pem: &str, ciphertext: &[u8]) -> (r: Option<Vec<u8>>)
    ensures
        opt_bytes(r) == oaep_plaintext_of(private_pem@, ciphertext@),
{
    let key = rsa::RsaPrivateKey::from_pkcs1_pem(private_pem).ok()?;
    key.decrypt(rsa::Oaep::new::<sha2::Sha256>(), ciphertext).ok()
}

/// Relies on `OsRng::try_fill_bytes` of `rand_core`: `n` bytes from the
/// operating system's random source, or `None` where that source fails.
#[verifier::external_body]
pub(crate) fn os_random_bytes(n: usize) -> (r: Option<Vec<u8>>)
    ensures
        r matches Some(v) ==> v@.len() == n,
{
    let mut buf = vec![0u8; n];
    match rsa::rand_core::OsRng.try_fill_bytes(&mut buf) {
        Ok(()) => Some(buf),
        Err(_) => None,
    }
}

/// Relies on `sha2::Sha256::digest`: the 32-byte digest of the data.
#[verifier::external_body]
pub(crate) fn sha256(data: &[u8]) -> (r: Vec<u8>)
    ensures
        r@ == sha256_of(data@),
        r@.len() == 32,
{
    sha2::Sha256::digest(data).to_vec()
}

} // verus!
