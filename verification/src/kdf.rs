//! The MTProto 2.0 key derivation.
use vstd::prelude::*;

use crate::bytes;
use crate::error::CryptoError;
use crate::primitives;

verus! {

/// Bounds of the part of the authorization key that the first digest hashes.
pub const KDF_A_LO: usize = 0;

pub const KDF_A_HI: usize = 36;

/// Bounds of the part of the authorization key that the second digest hashes.
pub const KDF_B_LO: usize = 40;

pub const KDF_B_HI: usize = 76;

/// The part of `auth_key` between two bounds, each moved on by `x`.
pub open spec fn key_part(auth_key: Seq<u8>, x: nat, lo: usize, hi: usize) -> Seq<u8> {
    auth_key.subrange(x + lo, x + hi)
}

/// The first digest: of the message key and a part of the authorization key.
pub open spec fn digest_a(auth_key: Seq<u8>, msg_key: Seq<u8>, x: nat) -> Seq<u8> {
    primitives::sha256_of(msg_key + key_part(auth_key, x, KDF_A_LO, KDF_A_HI))
}

/// The second digest: of another part of the authorization key and the message key.
pub open spec fn digest_b(auth_key: Seq<u8>, msg_key: Seq<u8>, x: nat) -> Seq<u8> {
    primitives::sha256_of(key_part(auth_key, x, KDF_B_LO, KDF_B_HI) + msg_key)
}

/// The first 8 and the last 8 bytes of `outer` round the middle 16 bytes of `inner`.
pub open spec fn mixed(outer: Seq<u8>, inner: Seq<u8>) -> Seq<u8> {
    Seq::new(
        32,
        |i: int|
            if 8 <= i < 24 {
                inner[i]
            } else {
                outer[i]
            },
    )
}

/// The AES key for a message key.
pub open spec fn derived_key(auth_key: Seq<u8>, msg_key: Seq<u8>, x: nat) -> Seq<u8> {
    mixed(digest_a(auth_key, msg_key, x), digest_b(auth_key, msg_key, x))
}

/// The IGE initialisation vector for a message key.
pub open spec fn derived_iv(auth_key: Seq<u8>, msg_key: Seq<u8>, x: nat) -> Seq<u8> {
    mixed(digest_b(auth_key, msg_key, x), digest_a(auth_key, msg_key, x))
}

/// How far the parts of the authorization key are moved on: not at all for messages from client
/// to server, by 8 for messages from server to client.
pub open spec fn direction_offset(to_client: bool) -> nat {
    if to_client {
        8
    } else {
        0
    }
}

/// The derivation on SHA-256 itself, for messages in either direction: the key is the first 8
/// and the last 8 bytes of one digest round the middle of the other, and the vector is the
/// same with the digests exchanged.
pub proof fn law_kdf(auth_key: Seq<u8>, msg_key: Seq<u8>, to_client: bool)
    ensures
        ({
            let x: int = if to_client {
                8
            } else {
                0
            };
            let a = primitives::sha256_of(msg_key + auth_key.subrange(x, x + 36));
            let b = primitives::sha256_of(auth_key.subrange(x + 40, x + 76) + msg_key);
            let key = derived_key(auth_key, msg_key, direction_offset(to_client));
            let iv = derived_iv(auth_key, msg_key, direction_offset(to_client));
            &&& key.len() == 32
            &&& iv.len() == 32
            &&& forall|i: int| 0 <= i < 8 || 24 <= i < 32 ==> #[trigger] key[i] == a[i]
            &&& forall|i: int| 8 <= i < 24 ==> #[trigger] key[i] == b[i]
            &&& forall|i: int| 0 <= i < 8 || 24 <= i < 32 ==> #[trigger] iv[i] == b[i]
            &&& forall|i: int| 8 <= i < 24 ==> #[trigger] iv[i] == a[i]
        }),
{
}

/// Puts the middle of `inner` between the ends of `outer`.
pub fn mix(outer: &[u8; 32], inner: &[u8; 32]) -> (out: [u8; 32])
    ensures
        out@ == mixed(outer@, inner@),
        out@ == outer@.subrange(0, 8) + inner@.subrange(8, 24) + outer@.subrange(24, 32),
{
    let mut out: [u8; 32] = [0u8; 32];
    let mut i: usize = 0;
    while i < 32
        invariant
            i <= 32,
            forall|j: int|
                0 <= j < i ==> out@[j] == if 8 <= j < 24 {
                    inner@[j]
                } else {
                    outer@[j]
                },
        decreases 32 - i,
    {
        out[i] = if 8 <= i && i < 24 {
            inner[i]
        } else {
            outer[i]
        };
        i += 1;
    }
    assert(out@ =~= mixed(outer@, inner@));
    out
}

/// Derives AES key and initialisation vector from the two digests.
pub fn key_and_iv(sha_a: &[u8; 32], sha_b: &[u8; 32]) -> (res: ([u8; 32], [u8; 32]))
    ensures
        res.0@ == mixed(sha_a@, sha_b@),
        res.1@ == mixed(sha_b@, sha_a@),
        res.0@ == sha_a@.subrange(0, 8) + sha_b@.subrange(8, 24) + sha_a@.subrange(24, 32),
        res.1@ == sha_b@.subrange(0, 8) + sha_a@.subrange(8, 24) + sha_b@.subrange(24, 32),
{
    (mix(sha_a, sha_b), mix(sha_b, sha_a))
}

/// Derives AES key and initialisation vector, with the parts of the authorization key moved on
/// by `x`.
pub fn kdf_inner(auth_key: &[u8], msg_key: &[u8], x: usize) -> (res: ([u8; 32], [u8; 32]))
    requires
        x + KDF_B_HI <= auth_key.len(),
    ensures
        res.0@ == derived_key(auth_key@, msg_key@, x as nat),
        res.1@ == derived_iv(auth_key@, msg_key@, x as nat),
        ({
            let a = primitives::sha256_of(msg_key@ + auth_key@.subrange(x as int, x + 36));
            let b = primitives::sha256_of(auth_key@.subrange(x + 40, x + 76) + msg_key@);
            &&& a.len() == 32
            &&& b.len() == 32
            &&& res.0@ == a.subrange(0, 8) + b.subrange(8, 24) + a.subrange(24, 32)
            &&& res.1@ == b.subrange(0, 8) + a.subrange(8, 24) + b.subrange(24, 32)
        }),
{
    let part_a: &[u8] = vstd::slice::slice_subrange(auth_key, x + KDF_A_LO, x + KDF_A_HI);
    let sha_a: [u8; 32] = primitives::sha256(&bytes::concat(msg_key, part_a));
    let part_b: &[u8] = vstd::slice::slice_subrange(auth_key, x + KDF_B_LO, x + KDF_B_HI);
    let sha_b: [u8; 32] = primitives::sha256(&bytes::concat(part_b, msg_key));
    key_and_iv(&sha_a, &sha_b)
}

/// Derives AES key and initialisation vector for a message key. `outgoing` messages go from
/// client to server.
pub fn kdf(auth_key: &[u8], msg_key: &[u8], outgoing: bool) -> (res: Result<
    (Vec<u8>, Vec<u8>),
    CryptoError,
>)
    ensures
        res is Err <==> auth_key@.len() != 256,
        res is Err ==> res->Err_0 == CryptoError::AuthKeyLength,
        res is Ok ==> ({
            let x = direction_offset(!outgoing);
            &&& res->Ok_0.0@ == derived_key(auth_key@, msg_key@, x)
            &&& res->Ok_0.1@ == derived_iv(auth_key@, msg_key@, x)
            &&& res->Ok_0.0@.len() == 32
            &&& res->Ok_0.1@.len() == 32
        }),
        auth_key@.len() == 256 && outgoing ==> res is Ok && ({
            let a = primitives::sha256_of(msg_key@ + auth_key@.subrange(0, 36));
            let b = primitives::sha256_of(auth_key@.subrange(40, 76) + msg_key@);
            &&& a.len() == 32
            &&& b.len() == 32
            &&& res->Ok_0.0@ == a.subrange(0, 8) + b.subrange(8, 24) + a.subrange(24, 32)
            &&& res->Ok_0.1@ == b.subrange(0, 8) + a.subrange(8, 24) + b.subrange(24, 32)
        }),
        auth_key@.len() == 256 && !outgoing ==> res is Ok && ({
            let a = primitives::sha256_of(msg_key@ + auth_key@.subrange(8, 44));
            let b = primitives::sha256_of(auth_key@.subrange(48, 84) + msg_key@);
            &&& a.len() == 32
            &&& b.len() == 32
            &&& res->Ok_0.0@ == a.subrange(0, 8) + b.subrange(8, 24) + a.subrange(24, 32)
            &&& res->Ok_0.1@ == b.subrange(0, 8) + a.subrange(8, 24) + b.subrange(24, 32)
        }),
{
    if auth_key.len() != 256 {
        return Err(CryptoError::AuthKeyLength);
    }
    let x: usize = if outgoing {
        0
    } else {
        8
    };
    let (key, iv): ([u8; 32], [u8; 32]) = kdf_inner(auth_key, msg_key, x);
    Ok((vstd::slice::slice_to_vec(&key), vstd::slice::slice_to_vec(&iv)))
}

} // verus!
