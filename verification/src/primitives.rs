//! The cryptographic primitives that the library builds on: the AES-256 block function,
//! SHA-256, and the system's random numbers.
use vstd::prelude::*;

use aes::cipher::generic_array::GenericArray;
use aes::cipher::{BlockDecrypt, BlockEncrypt, KeyInit};
use aes::Aes256;
use sha2::{Digest, Sha256};

verus! {

/// The block into which AES-256 encrypts `block` under `key`.
pub uninterp spec fn aes256_encrypted(key: Seq<u8>, block: Seq<u8>) -> Seq<u8>;

/// The block into which AES-256 decrypts `block` under `key`.
pub uninterp spec fn aes256_decrypted(key: Seq<u8>, block: Seq<u8>) -> Seq<u8>;

/// AES-256 under `key` encrypts `b` to the 16 bytes of `block`.
pub open spec fn encrypts_to(key: Seq<u8>, b: Seq<u8>, block: Seq<u8>) -> bool {
    forall|j: int| 0 <= j < 16 ==> #[trigger] aes256_encrypted(key, b)[j] == block[j]
}

/// The SHA-256 digest of `data`.
pub uninterp spec fn sha256_of(data: Seq<u8>) -> Seq<u8>;

/// Encrypts one block with `encrypt_block` of `aes::Aes256`, keyed by `new_from_slice`.
///
/// Trusted: the result is a function of key and block alone, and `decrypt_block` under the
/// same key turns it back into `block`, as the examples of that crate show. `new_from_slice`
/// fails on every key that is not 32 bytes long, so such keys are left out.
#[verifier::external_body]
pub(crate) fn aes256_encrypt_block(key: &[u8], block: &[u8; 16]) -> (out: [u8; 16])
    requires
        key@.len() == 32,
    ensures
        out@ == aes256_encrypted(key@, block@),
        aes256_decrypted(key@, out@) == block@,
{
    let mut buf = GenericArray::from(*block);
    Aes256::new_from_slice(key).unwrap().encrypt_block(&mut buf);
    buf.into()
}

/// Decrypts one block with `decrypt_block` of `aes::Aes256`, keyed by `new_from_slice`.
///
/// Trusted: the result is a function of key and block alone, and `encrypt_block` under the
/// same key turns it, and no other block, back into `block`: the examples of that crate show
/// that `decrypt_block` gives back every block that was encrypted. `new_from_slice` fails on
/// every key that is not 32 bytes long, so such keys are left out.
#[verifier::external_body]
pub(crate) fn aes256_decrypt_block(key: &[u8], block: &[u8; 16]) -> (out: [u8; 16])
    requires
        key@.len() == 32,
    ensures
        out@ == aes256_decrypted(key@, block@),
        aes256_encrypted(key@, out@) == block@,
        forall|b: Seq<u8>|
            b.len() == 16 && #[trigger] encrypts_to(key@, b, block@) ==> b == out@,
{
    let mut buf = GenericArray::from(*block);
    Aes256::new_from_slice(key).unwrap().decrypt_block(&mut buf);
    buf.into()
}

/// Hashes `data` with `Sha256::digest` of `sha2`.
///
/// Trusted: the result is a function of the data alone. Its 32 bytes show in its type. The
/// hash counts its input in bits with 64 bits, more than an address space holds.
#[verifier::external_body]
pub(crate) fn sha256(data: &[u8]) -> (digest: [u8; 32])
    ensures
        digest@ == sha256_of(data@),
{
    Sha256::digest(data).into()
}

/// Asks `getrandom::getrandom` for `len` random bytes.
///
/// Trusted: `len` bytes come back. Nothing is said of what they are, and where the system
/// has no random bytes to give, the failure is passed over and they may be zero.
#[verifier::external_body]
pub(crate) fn random_bytes(len: usize) -> (bytes: Vec<u8>)
    ensures
        bytes@.len() == len,
{
    let mut buf = vec![0u8; len];
    let _ = getrandom::getrandom(&mut buf);
    buf
}

/// Returns the SHA-256 digest of a byte string.
pub fn sha256_digest(data: &[u8]) -> (digest: Vec<u8>)
    ensures
        digest@ == sha256_of(data@),
        digest@.len() == 32,
{
    let digest: [u8; 32] = sha256(data);
    vstd::slice::slice_to_vec(&digest)
}

} // verus!
