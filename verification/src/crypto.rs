//! The hashes and encodings that sign a request.
use base64::engine::general_purpose;
use base64::Engine;
use hmac::{Hmac, Mac};
use sha2::{Digest, Sha256, Sha512};
use vstd::prelude::*;
use vstd::string::*;

verus! {

/// What SHA-256 gives for `data`.
pub uninterp spec fn sha256_of(data: Seq<u8>) -> Seq<u8>;

/// What HMAC with SHA-512 gives for `data` under `key`.
pub uninterp spec fn hmac_sha512_of(key: Seq<u8>, data: Seq<u8>) -> Seq<u8>;

/// `data` in standard base64 with padding.
pub uninterp spec fn base64_of(data: Seq<u8>) -> Seq<char>;

/// The bytes that `text` holds in standard base64 with padding; none where
/// it is not well formed.
pub uninterp spec fn unbase64_of(text: Seq<char>) -> Option<Seq<u8>>;

/// `sha2::Sha256`, one `update` between `new` and `finalize`: the digest of
/// `data`, which depends on nothing else and has 32 bytes.
#[verifier::external_body]
pub(crate) fn sha256(data: &[u8]) -> (r: Vec<u8>)
    ensures
        r@ == sha256_of(data@),
        r@.len() == 32,
{
    let mut sha = Sha256::new();
    Digest::update(&mut sha, data);
    sha.finalize().to_vec()
}

/// `hmac::Hmac::<sha2::Sha512>`, one `update` between `new_from_slice` and
/// `finalize`: the code of `data` under `key`, which depends on nothing else
/// and has 64 bytes. `new_from_slice` takes keys of every length.
#[verifier::external_body]
pub(crate) fn hmac_sha512(key: &[u8], data: &[u8]) -> (r: Vec<u8>)
    ensures
        r@ == hmac_sha512_of(key@, data@),
        r@.len() == 64,
{
    let mut mac = Hmac::<Sha512>::new_from_slice(key).expect("HMAC can take key of any size");
    Mac::update(&mut mac, data);
    mac.finalize().into_bytes().to_vec()
}

/// `base64`'s `Engine::encode` of `general_purpose::STANDARD`: the text
/// depends on `data` alone, has four characters for every three bytes begun,
/// and decoding it gives `data` back. `encode` panics
/// where the text would not fit in memory, so that is left out.
#[verifier::external_body]
pub(crate) fn base64_encode(data: &[u8]) -> (r: String)
    requires
        data@.len() <= usize::MAX / 4,
    ensures
        r@ == base64_of(data@),
        r@.len() == (data@.len() + 2) / 3 * 4,
        unbase64_of(r@) == Some(data@),
{
    general_purpose::STANDARD.encode(data)
}

/// `base64`'s `Engine::decode` of `general_purpose::STANDARD`: whether it
/// succeeds and what it gives depend on `text` alone, and it takes only the
/// one text that encoding the bytes gives.
#[verifier::external_body]
pub(crate) fn base64_decode(text: &str) -> (r: Option<Vec<u8>>)
    ensures
        match r {
            Some(b) => unbase64_of(text@) == Some(b@) && base64_of(b@) == text@,
            None => unbase64_of(text@) is None,
        },
{
    general_purpose::STANDARD.decode(text).ok()
}

} // verus!
