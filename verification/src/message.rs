//! Encrypted MTProto messages.
//!
//! A packed message is the 8 bytes of the authorization key identifier, the 16 bytes of the
//! message key, and the encrypted plaintext. The plaintext is salt, session identifier, message
//! identifier, sequence number, body length, body and padding.
use vstd::prelude::*;

use crate::bytes;
use crate::error::CryptoError;
use crate::ige;
use crate::kdf;
use crate::primitives;

verus! {

/// Bounds of the part of the authorization key that goes into the message key.
pub const MSG_KEY_AUTH_LO: usize = 88;

pub const MSG_KEY_AUTH_HI: usize = 120;

/// The plaintext of a message.
pub open spec fn plaintext_of(
    salt: i64,
    session_id: Seq<u8>,
    msg_id: i64,
    seq_no: i32,
    body: Seq<u8>,
    padding: Seq<u8>,
) -> Seq<u8> {
    bytes::le_bytes(bytes::unsigned_64(salt), 8) + session_id + bytes::le_bytes(
        bytes::unsigned_64(msg_id),
        8,
    ) + bytes::le_bytes(bytes::unsigned_32(seq_no), 4) + bytes::le_bytes(
        body.len() % 0x1_0000_0000,
        4,
    ) + body + padding
}

/// The length of the padding behind a body: at least 12 bytes, and as many more as make the
/// plaintext, with its 32 bytes before the body, one of whole blocks.
pub open spec fn padding_len(body_len: nat) -> nat {
    ((32 + body_len + 12 + 15) / 16 * 16 - (32 + body_len)) as nat
}

/// The digest that holds the message key of `plain`.
pub open spec fn msg_key_digest(auth_key: Seq<u8>, plain: Seq<u8>, x: nat) -> Seq<u8> {
    primitives::sha256_of(
        kdf::key_part(auth_key, x, MSG_KEY_AUTH_LO, MSG_KEY_AUTH_HI) + plain,
    )
}

/// The middle 16 bytes of a digest.
pub open spec fn middle(digest: Seq<u8>) -> Seq<u8> {
    Seq::new(16, |i: int| digest[8 + i])
}

/// The message key of `plain`: the middle of its digest.
pub open spec fn msg_key_of(auth_key: Seq<u8>, plain: Seq<u8>, x: nat) -> Seq<u8> {
    middle(msg_key_digest(auth_key, plain, x))
}

/// `plain` as it is encrypted under a message key.
pub open spec fn encrypted_under(auth_key: Seq<u8>, msg_key: Seq<u8>, plain: Seq<u8>, x: nat) -> Seq<
    u8,
> {
    ige::ige_encrypted(
        kdf::derived_key(auth_key, msg_key, x),
        kdf::derived_iv(auth_key, msg_key, x),
        plain,
    )
}

/// `cipher` as it is decrypted under a message key.
pub open spec fn decrypted_under(auth_key: Seq<u8>, msg_key: Seq<u8>, cipher: Seq<u8>, x: nat) -> Seq<
    u8,
> {
    ige::ige_decrypted(
        kdf::derived_key(auth_key, msg_key, x),
        kdf::derived_iv(auth_key, msg_key, x),
        cipher,
    )
}

/// The packed message of `plain`.
pub open spec fn sealed(auth_key: Seq<u8>, auth_key_id: Seq<u8>, plain: Seq<u8>, x: nat) -> Seq<u8> {
    let msg_key = msg_key_of(auth_key, plain, x);
    auth_key_id + msg_key + encrypted_under(auth_key, msg_key, plain, x)
}

/// What a plaintext opens as: message identifier, sequence number, body length, body, and the
/// length of all that follows the session identifier.
pub open spec fn plaintext_outcome(
    plain: Seq<u8>,
    digest: Seq<u8>,
    msg_key: Seq<u8>,
    session_id: Seq<u8>,
) -> Result<(int, int, int, Seq<u8>, int), CryptoError> {
    if plain.len() < 32 || middle(digest) != msg_key {
        Err(CryptoError::MsgKeyMismatch)
    } else if plain.subrange(8, 16) != session_id {
        Err(CryptoError::SessionIdMismatch)
    } else {
        let length = bytes::signed_32(bytes::le_value(plain.subrange(28, 32)));
        if length < 0 {
            Err(CryptoError::NegativeBodyLength)
        } else if 32 + length > plain.len() {
            Err(CryptoError::BodyTooLong)
        } else {
            Ok(
                (
                    bytes::signed_64(bytes::le_value(plain.subrange(16, 24))),
                    bytes::signed_32(bytes::le_value(plain.subrange(24, 28))),
                    length,
                    plain.subrange(32, 32 + length),
                    bytes::signed_32((plain.len() - 16) as nat),
                ),
            )
        }
    }
}

/// What a packed message opens as. `incoming` messages come from the server.
pub open spec fn unpack_outcome(
    packed: Seq<u8>,
    session_id: Seq<u8>,
    auth_key: Seq<u8>,
    auth_key_id: Seq<u8>,
    incoming: bool,
) -> Result<(int, int, int, Seq<u8>, int), CryptoError> {
    if auth_key.len() != 256 {
        Err(CryptoError::AuthKeyLength)
    } else if auth_key_id.len() != 8 {
        Err(CryptoError::AuthKeyIdLength)
    } else if packed.len() < 24 {
        Err(CryptoError::PackedTooShort)
    } else if packed.subrange(0, 8) != auth_key_id {
        Err(CryptoError::AuthKeyIdMismatch)
    } else {
        let x = kdf::direction_offset(incoming);
        let msg_key = packed.subrange(8, 24);
        let plain = decrypted_under(auth_key, msg_key, packed.skip(24), x);
        plaintext_outcome(plain, msg_key_digest(auth_key, plain, x), msg_key, session_id)
    }
}

/// The result `res` is the outcome `outcome`.
pub open spec fn is_outcome(
    res: Result<(i64, i32, i32, Vec<u8>, i32), CryptoError>,
    outcome: Result<(int, int, int, Seq<u8>, int), CryptoError>,
) -> bool {
    match res {
        Ok(message) => outcome == Ok::<(int, int, int, Seq<u8>, int), CryptoError>(
            (
                message.0 as int,
                message.1 as int,
                message.2 as int,
                message.3@,
                message.4 as int,
            ),
        ),
        Err(e) => outcome == Err::<(int, int, int, Seq<u8>, int), CryptoError>(e),
    }
}

/// What a message opens as in its own session. The plaintext gives the lowest 32 bits of the
/// body length, which are read as a signed number: a body above `i32::MAX` bytes is refused or
/// cut.
pub open spec fn reopened(msg_id: i64, seq_no: i32, body: Seq<u8>, padding_len: nat) -> Result<
    (int, int, int, Seq<u8>, int),
    CryptoError,
> {
    let length = bytes::signed_32(body.len());
    if length < 0 {
        Err(CryptoError::NegativeBodyLength)
    } else {
        Ok(
            (
                msg_id as int,
                seq_no as int,
                length,
                body.take(length),
                bytes::signed_32(16 + body.len() + padding_len),
            ),
        )
    }
}

/// A body whose length a signed 32-bit number can hold comes out whole.
pub proof fn law_reopened_whole(msg_id: i64, seq_no: i32, body: Seq<u8>, padding_len: nat)
    requires
        body.len() <= i32::MAX,
    ensures
        reopened(msg_id, seq_no, body, padding_len) == Ok::<
            (int, int, int, Seq<u8>, int),
            CryptoError,
        >(
            (
                msg_id as int,
                seq_no as int,
                body.len() as int,
                body,
                bytes::signed_32(16 + body.len() + padding_len),
            ),
        ),
{
    assert(body.take(body.len() as int) =~= body);
}

/// The plaintext of a message opens in the session of the message.
pub proof fn law_plaintext_opens(
    salt: i64,
    session_id: Seq<u8>,
    msg_id: i64,
    seq_no: i32,
    body: Seq<u8>,
    padding: Seq<u8>,
    digest: Seq<u8>,
)
    requires
        session_id.len() == 8,
    ensures
        plaintext_of(salt, session_id, msg_id, seq_no, body, padding).len() == 32 + body.len()
            + padding.len(),
        plaintext_of(salt, session_id, msg_id, seq_no, body, padding).subrange(0, 8)
            == bytes::le_bytes(bytes::unsigned_64(salt), 8),
        plaintext_outcome(
            plaintext_of(salt, session_id, msg_id, seq_no, body, padding),
            digest,
            middle(digest),
            session_id,
        ) == reopened(msg_id, seq_no, body, padding.len()),
{
    let plain = plaintext_of(salt, session_id, msg_id, seq_no, body, padding);
    let id_bytes = bytes::le_bytes(bytes::unsigned_64(msg_id), 8);
    let seq_bytes = bytes::le_bytes(bytes::unsigned_32(seq_no), 4);
    let len_bytes = bytes::le_bytes(body.len() % 0x1_0000_0000, 4);
    bytes::lemma_le_bytes_len(bytes::unsigned_64(salt), 8);
    bytes::lemma_le_bytes_len(bytes::unsigned_64(msg_id), 8);
    bytes::lemma_le_bytes_len(bytes::unsigned_32(seq_no), 4);
    bytes::lemma_le_bytes_len(body.len() % 0x1_0000_0000, 4);
    bytes::lemma_pow256_values();
    bytes::law_le_round_trip(bytes::unsigned_64(msg_id), 8);
    bytes::law_le_round_trip(bytes::unsigned_32(seq_no), 4);
    bytes::law_le_round_trip(body.len() % 0x1_0000_0000, 4);
    assert(plain.subrange(0, 8) =~= bytes::le_bytes(bytes::unsigned_64(salt), 8));
    assert(plain.subrange(8, 16) =~= session_id);
    assert(plain.subrange(16, 24) =~= id_bytes);
    assert(plain.subrange(24, 28) =~= seq_bytes);
    assert(plain.subrange(28, 32) =~= len_bytes);
    let length = bytes::signed_32(body.len());
    if length >= 0 {
        assert(plain.subrange(32, 32 + length) =~= body.take(length));
    }
}

/// What is sealed in one direction opens, in that direction and with the same keys, as its
/// plaintext does, wherever decryption turns the encrypted plaintext back.
pub proof fn law_sealed_opens(
    auth_key: Seq<u8>,
    auth_key_id: Seq<u8>,
    plain: Seq<u8>,
    session_id: Seq<u8>,
    incoming: bool,
)
    requires
        auth_key.len() == 256,
        auth_key_id.len() == 8,
        ({
            let x = kdf::direction_offset(incoming);
            let msg_key = msg_key_of(auth_key, plain, x);
            &&& decrypted_under(
                auth_key,
                msg_key,
                encrypted_under(auth_key, msg_key, plain, x),
                x,
            ) == plain
        }),
    ensures
        unpack_outcome(
            sealed(auth_key, auth_key_id, plain, kdf::direction_offset(incoming)),
            session_id,
            auth_key,
            auth_key_id,
            incoming,
        ) == plaintext_outcome(
            plain,
            msg_key_digest(auth_key, plain, kdf::direction_offset(incoming)),
            msg_key_of(auth_key, plain, kdf::direction_offset(incoming)),
            session_id,
        ),
{
    let x = kdf::direction_offset(incoming);
    let msg_key = msg_key_of(auth_key, plain, x);
    let cipher = encrypted_under(auth_key, msg_key, plain, x);
    let packed = sealed(auth_key, auth_key_id, plain, x);
    assert(packed.subrange(0, 8) =~= auth_key_id);
    assert(packed.subrange(8, 24) =~= msg_key);
    assert(packed.skip(24) =~= cipher);
}

/// Only a message that passed every check is accepted: it names the authorization key, it has
/// the message key of its content, and it belongs to the session. Its body is as long as it
/// says.
pub proof fn law_accepted_is_checked(
    packed: Seq<u8>,
    session_id: Seq<u8>,
    auth_key: Seq<u8>,
    auth_key_id: Seq<u8>,
    incoming: bool,
)
    ensures
        unpack_outcome(packed, session_id, auth_key, auth_key_id, incoming) matches Ok(message)
            ==> ({
            let x = kdf::direction_offset(incoming);
            let msg_key = packed.subrange(8, 24);
            let plain = decrypted_under(auth_key, msg_key, packed.skip(24), x);
            &&& packed.subrange(0, 8) == auth_key_id
            &&& msg_key == msg_key_of(auth_key, plain, x)
            &&& plain.subrange(8, 16) == session_id
            &&& session_id.len() == 8
            &&& message.3.len() == message.2
            &&& 32 + message.2 <= plain.len()
        }),
{
}

/// The plaintext of a message, field by field: salt, session identifier, message identifier,
/// sequence number and body length, each least significant byte first, then body and padding.
pub proof fn law_plaintext_fields(
    salt: i64,
    session_id: Seq<u8>,
    msg_id: i64,
    seq_no: i32,
    body: Seq<u8>,
    padding: Seq<u8>,
)
    requires
        session_id.len() == 8,
    ensures
        ({
            let plain = plaintext_of(salt, session_id, msg_id, seq_no, body, padding);
            &&& plain.len() == 32 + body.len() + padding.len()
            &&& plain[0] + 0x100 * plain[1] + 0x1_0000 * plain[2] + 0x100_0000 * plain[3]
                + 0x1_0000_0000 * plain[4] + 0x100_0000_0000 * plain[5]
                + 0x1_0000_0000_0000 * plain[6] + 0x100_0000_0000_0000 * plain[7] == (if salt >= 0 {
                salt as int
            } else {
                salt + 0x1_0000_0000_0000_0000
            })
            &&& plain.subrange(8, 16) == session_id
            &&& plain[16] + 0x100 * plain[17] + 0x1_0000 * plain[18] + 0x100_0000 * plain[19]
                + 0x1_0000_0000 * plain[20] + 0x100_0000_0000 * plain[21]
                + 0x1_0000_0000_0000 * plain[22] + 0x100_0000_0000_0000 * plain[23]
                == (if msg_id >= 0 {
                msg_id as int
            } else {
                msg_id + 0x1_0000_0000_0000_0000
            })
            &&& plain[24] + 0x100 * plain[25] + 0x1_0000 * plain[26] + 0x100_0000 * plain[27]
                == (if seq_no >= 0 {
                seq_no as int
            } else {
                seq_no + 0x1_0000_0000
            })
            &&& plain[28] + 0x100 * plain[29] + 0x1_0000 * plain[30] + 0x100_0000 * plain[31]
                == body.len() % 0x1_0000_0000
            &&& plain.subrange(32, 32 + body.len() as int) == body
            &&& plain.skip(32 + body.len() as int) == padding
        }),
{
    let plain = plaintext_of(salt, session_id, msg_id, seq_no, body, padding);
    let salt_bytes = bytes::le_bytes(bytes::unsigned_64(salt), 8);
    let id_bytes = bytes::le_bytes(bytes::unsigned_64(msg_id), 8);
    let seq_bytes = bytes::le_bytes(bytes::unsigned_32(seq_no), 4);
    let len_bytes = bytes::le_bytes(body.len() % 0x1_0000_0000, 4);
    bytes::law_le_bytes_8(bytes::unsigned_64(salt));
    bytes::law_le_bytes_8(bytes::unsigned_64(msg_id));
    bytes::law_le_bytes_4(bytes::unsigned_32(seq_no));
    bytes::law_le_bytes_4(body.len() % 0x1_0000_0000);
    assert(forall|i: int| 0 <= i < 8 ==> plain[i] == salt_bytes[i]);
    assert(forall|i: int| 16 <= i < 24 ==> plain[i] == id_bytes[i - 16]);
    assert(forall|i: int| 24 <= i < 28 ==> plain[i] == seq_bytes[i - 24]);
    assert(forall|i: int| 28 <= i < 32 ==> plain[i] == len_bytes[i - 28]);
    assert(plain.subrange(8, 16) =~= session_id);
    assert(plain.subrange(32, 32 + body.len() as int) =~= body);
    assert(plain.skip(32 + body.len() as int) =~= padding);
}

/// A packed message, part by part: the authorization key identifier; the middle 16 bytes of the
/// SHA-256 digest of a part of the authorization key and the whole plaintext; and the whole
/// plaintext, IGE encrypted under key and vector that come from SHA-256 digests of that message
/// key and two more parts of the authorization key.
pub proof fn law_sealed_parts(auth_key: Seq<u8>, auth_key_id: Seq<u8>, plain: Seq<u8>, x: nat)
    requires
        auth_key_id.len() == 8,
        x + 120 <= auth_key.len(),
    ensures
        ({
            let packed = sealed(auth_key, auth_key_id, plain, x);
            let msg_key = packed.subrange(8, 24);
            let from = x as int;
            let digest = primitives::sha256_of(auth_key.subrange(from + 88, from + 120) + plain);
            let a = primitives::sha256_of(msg_key + auth_key.subrange(from, from + 36));
            let b = primitives::sha256_of(auth_key.subrange(from + 40, from + 76) + msg_key);
            let key = Seq::new(32, |i: int| if 8 <= i < 24 { b[i] } else { a[i] });
            let iv = Seq::new(32, |i: int| if 8 <= i < 24 { a[i] } else { b[i] });
            &&& packed.len() == 24 + plain.len()
            &&& packed.subrange(0, 8) == auth_key_id
            &&& forall|i: int| 0 <= i < 16 ==> #[trigger] msg_key[i] == digest[8 + i]
            &&& packed.skip(24) == ige::ige_encrypted(key, iv, plain)
        }),
{
    let packed = sealed(auth_key, auth_key_id, plain, x);
    let msg_key = msg_key_of(auth_key, plain, x);
    let cipher = encrypted_under(auth_key, msg_key, plain, x);
    let a = kdf::digest_a(auth_key, msg_key, x);
    let b = kdf::digest_b(auth_key, msg_key, x);
    let key = Seq::new(32, |i: int| if 8 <= i < 24 { b[i] } else { a[i] });
    let iv = Seq::new(32, |i: int| if 8 <= i < 24 { a[i] } else { b[i] });
    ige::law_encryption_keeps_len(
        kdf::derived_key(auth_key, msg_key, x),
        kdf::derived_iv(auth_key, msg_key, x).subrange(0, 16),
        kdf::derived_iv(auth_key, msg_key, x).subrange(16, 32),
        plain,
    );
    assert(packed.subrange(0, 8) =~= auth_key_id);
    assert(packed.subrange(8, 24) =~= msg_key);
    assert(packed.skip(24) =~= cipher);
    assert(key =~= kdf::derived_key(auth_key, msg_key, x));
    assert(iv =~= kdf::derived_iv(auth_key, msg_key, x));
}

/// How a packed message opens, on the primitives themselves. The content is decrypted under key
/// and vector of its direction, which alone decides between the parts of the authorization key,
/// whatever the length of the message. Then each refusal comes exactly where it is due, in this
/// order, and a message that none of them meets opens as the fields of its content.
pub proof fn law_unpack(
    packed: Seq<u8>,
    session_id: Seq<u8>,
    auth_key: Seq<u8>,
    auth_key_id: Seq<u8>,
    incoming: bool,
)
    ensures
        ({
            let outcome = unpack_outcome(packed, session_id, auth_key, auth_key_id, incoming);
            let x: int = if incoming { 8 } else { 0 };
            let msg_key = packed.subrange(8, 24);
            let a = primitives::sha256_of(msg_key + auth_key.subrange(x, x + 36));
            let b = primitives::sha256_of(auth_key.subrange(x + 40, x + 76) + msg_key);
            let key = Seq::new(32, |i: int| if 8 <= i < 24 { b[i] } else { a[i] });
            let iv = Seq::new(32, |i: int| if 8 <= i < 24 { a[i] } else { b[i] });
            let plain = ige::ige_decrypted(key, iv, packed.skip(24));
            let digest = primitives::sha256_of(auth_key.subrange(88 + x, 120 + x) + plain);
            let id = plain[16] + 0x100 * plain[17] + 0x1_0000 * plain[18] + 0x100_0000 * plain[19]
                + 0x1_0000_0000 * plain[20] + 0x100_0000_0000 * plain[21]
                + 0x1_0000_0000_0000 * plain[22] + 0x100_0000_0000_0000 * plain[23];
            let seq_no = plain[24] + 0x100 * plain[25] + 0x1_0000 * plain[26]
                + 0x100_0000 * plain[27];
            let length = plain[28] + 0x100 * plain[29] + 0x1_0000 * plain[30]
                + 0x100_0000 * plain[31];
            if auth_key.len() != 256 {
                outcome is Err && outcome->Err_0 == CryptoError::AuthKeyLength
            } else if auth_key_id.len() != 8 {
                outcome is Err && outcome->Err_0 == CryptoError::AuthKeyIdLength
            } else if packed.len() < 24 {
                outcome is Err && outcome->Err_0 == CryptoError::PackedTooShort
            } else if packed.subrange(0, 8) != auth_key_id {
                outcome is Err && outcome->Err_0 == CryptoError::AuthKeyIdMismatch
            } else if packed.len() < 56 || !(forall|i: int|
                0 <= i < 16 ==> #[trigger] msg_key[i] == digest[8 + i]) {
                outcome is Err && outcome->Err_0 == CryptoError::MsgKeyMismatch
            } else if plain.subrange(8, 16) != session_id {
                outcome is Err && outcome->Err_0 == CryptoError::SessionIdMismatch
            } else if length >= 0x8000_0000 {
                outcome is Err && outcome->Err_0 == CryptoError::NegativeBodyLength
            } else if 56 + length > packed.len() {
                outcome is Err && outcome->Err_0 == CryptoError::BodyTooLong
            } else {
                &&& outcome is Ok
                &&& outcome->Ok_0.0 == (if id < 0x8000_0000_0000_0000 {
                    id as int
                } else {
                    id - 0x1_0000_0000_0000_0000
                })
                &&& outcome->Ok_0.1 == (if seq_no < 0x8000_0000 {
                    seq_no as int
                } else {
                    seq_no - 0x1_0000_0000
                })
                &&& outcome->Ok_0.2 == length
                &&& outcome->Ok_0.3 == plain.subrange(32, 32 + length)
                &&& -0x8000_0000 <= outcome->Ok_0.4 < 0x8000_0000
                &&& (packed.len() - 40 - outcome->Ok_0.4) % 0x1_0000_0000 == 0
            }
        }),
{
    let x: int = if incoming { 8 } else { 0 };
    let msg_key = packed.subrange(8, 24);
    let a = primitives::sha256_of(msg_key + auth_key.subrange(x, x + 36));
    let b = primitives::sha256_of(auth_key.subrange(x + 40, x + 76) + msg_key);
    let key = Seq::new(32, |i: int| if 8 <= i < 24 { b[i] } else { a[i] });
    let iv = Seq::new(32, |i: int| if 8 <= i < 24 { a[i] } else { b[i] });
    let plain = ige::ige_decrypted(key, iv, packed.skip(24));
    let digest = primitives::sha256_of(auth_key.subrange(88 + x, 120 + x) + plain);
    if packed.len() >= 24 {
        assert(key =~= kdf::derived_key(auth_key, msg_key, x as nat));
        assert(iv =~= kdf::derived_iv(auth_key, msg_key, x as nat));
        assert(plain == decrypted_under(auth_key, msg_key, packed.skip(24), x as nat));
        ige::law_decryption_keeps_len(
            key,
            iv.subrange(0, 16),
            iv.subrange(16, 32),
            packed.skip(24),
        );
        assert(plain.len() == packed.len() - 24);
        if forall|i: int| 0 <= i < 16 ==> #[trigger] msg_key[i] == digest[8 + i] {
            assert(middle(digest) =~= msg_key);
        } else {
            let i = choose|i: int| 0 <= i < 16 && #[trigger] msg_key[i] != digest[8 + i];
            assert(middle(digest)[i] == digest[8 + i]);
        }
        if plain.len() >= 32 {
            bytes::law_le_value_8(plain.subrange(16, 24));
            bytes::law_le_value_4(plain.subrange(24, 28));
            bytes::law_le_value_4(plain.subrange(28, 32));
        }
    }
}

/// A genuine message opens, in either direction: one that names the authorization key, whose
/// content is a plaintext encrypted under key and vector of that direction, and whose message
/// key is the middle of the digest of that plaintext. It opens as the fields of the plaintext.
/// That AES turns each block back is all that is asked of decryption.
pub proof fn law_genuine_opens(
    packed: Seq<u8>,
    session_id: Seq<u8>,
    auth_key: Seq<u8>,
    auth_key_id: Seq<u8>,
    key: Seq<u8>,
    iv: Seq<u8>,
    plain: Seq<u8>,
    incoming: bool,
)
    requires
        auth_key.len() == 256,
        auth_key_id.len() == 8,
        packed.len() >= 24,
        packed.subrange(0, 8) == auth_key_id,
        key.len() == 32,
        iv.len() == 32,
        plain.len() >= 32,
        plain.subrange(8, 16) == session_id,
        plain[28] + 0x100 * plain[29] + 0x1_0000 * plain[30] + 0x100_0000 * plain[31] < 0x8000_0000,
        32 + plain[28] + 0x100 * plain[29] + 0x1_0000 * plain[30]
            + 0x100_0000 * plain[31] <= plain.len(),
    ensures
        ({
            let x: int = if incoming { 8 } else { 0 };
            let msg_key = packed.subrange(8, 24);
            let a = primitives::sha256_of(msg_key + auth_key.subrange(x, x + 36));
            let b = primitives::sha256_of(auth_key.subrange(x + 40, x + 76) + msg_key);
            let digest = primitives::sha256_of(auth_key.subrange(88 + x, 120 + x) + plain);
            &&& forall|i: int| 0 <= i < 8 || 24 <= i < 32 ==> #[trigger] key[i] == a[i]
            &&& forall|i: int| 8 <= i < 24 ==> #[trigger] key[i] == b[i]
            &&& forall|i: int| 0 <= i < 8 || 24 <= i < 32 ==> #[trigger] iv[i] == b[i]
            &&& forall|i: int| 8 <= i < 24 ==> #[trigger] iv[i] == a[i]
            &&& packed.skip(24) == ige::ige_encrypted(key, iv, plain)
            &&& forall|i: int| 0 <= i < 16 ==> #[trigger] msg_key[i] == digest[8 + i]
            &&& forall|block: Seq<u8>|
                block.len() == 16 ==> #[trigger] ige::decrypts_uniquely(key, block)
        }) ==> ({
            let outcome = unpack_outcome(packed, session_id, auth_key, auth_key_id, incoming);
            let id = plain[16] + 0x100 * plain[17] + 0x1_0000 * plain[18] + 0x100_0000 * plain[19]
                + 0x1_0000_0000 * plain[20] + 0x100_0000_0000 * plain[21]
                + 0x1_0000_0000_0000 * plain[22] + 0x100_0000_0000_0000 * plain[23];
            let seq_no = plain[24] + 0x100 * plain[25] + 0x1_0000 * plain[26]
                + 0x100_0000 * plain[27];
            let length = plain[28] + 0x100 * plain[29] + 0x1_0000 * plain[30]
                + 0x100_0000 * plain[31];
            &&& outcome is Ok
            &&& outcome->Ok_0.0 == (if id < 0x8000_0000_0000_0000 {
                id as int
            } else {
                id - 0x1_0000_0000_0000_0000
            })
            &&& outcome->Ok_0.1 == (if seq_no < 0x8000_0000 {
                seq_no as int
            } else {
                seq_no - 0x1_0000_0000
            })
            &&& outcome->Ok_0.2 == length
            &&& outcome->Ok_0.3 == plain.subrange(32, 32 + length)
            &&& -0x8000_0000 <= outcome->Ok_0.4 < 0x8000_0000
            &&& (plain.len() - 16 - outcome->Ok_0.4) % 0x1_0000_0000 == 0
        }),
{
    let x: int = if incoming { 8 } else { 0 };
    let msg_key = packed.subrange(8, 24);
    let a = primitives::sha256_of(msg_key + auth_key.subrange(x, x + 36));
    let b = primitives::sha256_of(auth_key.subrange(x + 40, x + 76) + msg_key);
    let digest = primitives::sha256_of(auth_key.subrange(88 + x, 120 + x) + plain);
    let c = iv.subrange(0, 16);
    let p = iv.subrange(16, 32);
    if (forall|i: int| 0 <= i < 8 || 24 <= i < 32 ==> #[trigger] key[i] == a[i]) && (forall|i: int|
        8 <= i < 24 ==> #[trigger] key[i] == b[i]) && (forall|i: int|
        0 <= i < 8 || 24 <= i < 32 ==> #[trigger] iv[i] == b[i]) && (forall|i: int|
        8 <= i < 24 ==> #[trigger] iv[i] == a[i]) && packed.skip(24) == ige::ige_encrypted(
        key,
        iv,
        plain,
    ) && (forall|i: int| 0 <= i < 16 ==> #[trigger] msg_key[i] == digest[8 + i]) && (forall|
        block: Seq<u8>,
    |
        block.len() == 16 ==> #[trigger] ige::decrypts_uniquely(key, block)) {
        assert(key =~= kdf::derived_key(auth_key, msg_key, x as nat));
        assert(iv =~= kdf::derived_iv(auth_key, msg_key, x as nat));
        assert(middle(digest) =~= msg_key);
        ige::law_decryption_unique(key, c, p, ige::ige_encrypted_from(key, c, p, plain));
        ige::law_encrypted_decrypts(key, c, p, plain);
        bytes::law_le_value_8(plain.subrange(16, 24));
        bytes::law_le_value_4(plain.subrange(24, 28));
        bytes::law_le_value_4(plain.subrange(28, 32));
    }
}

/// The padding has between 12 and 27 bytes, and makes the plaintext one of whole blocks.
pub proof fn law_padding(body_len: nat)
    ensures
        12 <= padding_len(body_len) <= 27,
        (32 + body_len + padding_len(body_len)) % 16 == 0,
{
}

/// Returns the length of the padding behind a body of `body_len` bytes.
pub fn padding_for(body_len: usize) -> (n: usize)
    ensures
        n == padding_len(body_len as nat),
        12 <= n <= 27,
        (32 + body_len + n) % 16 == 0,
{
    12 + (20 - body_len % 16) % 16
}

/// Returns the plaintext of a message.
pub fn message_plaintext(
    salt: i64,
    session_id: &[u8],
    msg_id: i64,
    seq_no: i32,
    body: &[u8],
    padding: &[u8],
) -> (plain: Vec<u8>)
    ensures
        plain@ == plaintext_of(salt, session_id@, msg_id, seq_no, body@, padding@),
        session_id@.len() == 8 ==> ({
            &&& plain@.len() == 32 + body@.len() + padding@.len()
            &&& plain@[0] + 0x100 * plain@[1] + 0x1_0000 * plain@[2] + 0x100_0000 * plain@[3]
                + 0x1_0000_0000 * plain@[4] + 0x100_0000_0000 * plain@[5]
                + 0x1_0000_0000_0000 * plain@[6] + 0x100_0000_0000_0000 * plain@[7]
                == (if salt >= 0 {
                salt as int
            } else {
                salt + 0x1_0000_0000_0000_0000
            })
            &&& plain@.subrange(8, 16) == session_id@
            &&& plain@[16] + 0x100 * plain@[17] + 0x1_0000 * plain@[18] + 0x100_0000 * plain@[19]
                + 0x1_0000_0000 * plain@[20] + 0x100_0000_0000 * plain@[21]
                + 0x1_0000_0000_0000 * plain@[22] + 0x100_0000_0000_0000 * plain@[23]
                == (if msg_id >= 0 {
                msg_id as int
            } else {
                msg_id + 0x1_0000_0000_0000_0000
            })
            &&& plain@[24] + 0x100 * plain@[25] + 0x1_0000 * plain@[26] + 0x100_0000 * plain@[27]
                == (if seq_no >= 0 {
                seq_no as int
            } else {
                seq_no + 0x1_0000_0000
            })
            &&& plain@[28] + 0x100 * plain@[29] + 0x1_0000 * plain@[30] + 0x100_0000 * plain@[31]
                == body@.len() % 0x1_0000_0000
            &&& plain@.subrange(32, 32 + body@.len() as int) == body@
            &&& plain@.skip(32 + body@.len() as int) == padding@
        }),
{
    let mut plain: Vec<u8> = Vec::new();
    bytes::append_u64(&mut plain, bytes::to_u64(salt));
    bytes::append_slice(&mut plain, session_id);
    bytes::append_u64(&mut plain, bytes::to_u64(msg_id));
    bytes::append_u32(&mut plain, bytes::to_u32(seq_no));
    bytes::append_u32(&mut plain, bytes::low_u32(body.len()));
    bytes::append_slice(&mut plain, body);
    bytes::append_slice(&mut plain, padding);
    assert(plain@ =~= plaintext_of(salt, session_id@, msg_id, seq_no, body@, padding@));
    proof {
        if session_id@.len() == 8 {
            law_plaintext_fields(salt, session_id@, msg_id, seq_no, body@, padding@);
        }
    }
    plain
}

/// Hashes `plain` with the part of the authorization key that starts `x` bytes behind its
/// lower bound.
fn hash_plaintext(auth_key: &[u8], plain: &[u8], x: usize) -> (digest: [u8; 32])
    requires
        x + MSG_KEY_AUTH_HI <= auth_key.len(),
    ensures
        digest@ == msg_key_digest(auth_key@, plain@, x as nat),
        digest@ == primitives::sha256_of(auth_key@.subrange(x + 88, x + 120) + plain@),
{
    let part: &[u8] = vstd::slice::slice_subrange(
        auth_key,
        x + MSG_KEY_AUTH_LO,
        x + MSG_KEY_AUTH_HI,
    );
    primitives::sha256(&bytes::concat(part, plain))
}

/// `packed` is the packed message of `plain` for the server: it has the parts of one, it
/// decrypts to `plain`, and in every session it opens as `plain` does.
pub open spec fn is_packed(
    packed: Seq<u8>,
    auth_key: Seq<u8>,
    auth_key_id: Seq<u8>,
    plain: Seq<u8>,
) -> bool {
    &&& packed == sealed(auth_key, auth_key_id, plain, 0)
    &&& packed.len() == 24 + plain.len()
    &&& packed.subrange(0, 8) == auth_key_id
    &&& packed.subrange(8, 24) == msg_key_of(auth_key, plain, 0)
    &&& decrypted_under(auth_key, packed.subrange(8, 24), packed.skip(24), 0) == plain
    &&& forall|session_id: Seq<u8>| #[trigger]
        unpack_outcome(packed, session_id, auth_key, auth_key_id, false) == plaintext_outcome(
            plain,
            msg_key_digest(auth_key, plain, 0),
            msg_key_of(auth_key, plain, 0),
            session_id,
        )
}

/// Puts the parts of a packed message one behind the other.
pub fn join_packed(auth_key_id: &[u8], msg_key: &[u8; 16], cipher: &[u8]) -> (packed: Vec<u8>)
    ensures
        packed@ == auth_key_id@ + msg_key@ + cipher@,
{
    let mut packed: Vec<u8> = Vec::new();
    bytes::append_slice(&mut packed, auth_key_id);
    bytes::append_slice(&mut packed, msg_key);
    bytes::append_slice(&mut packed, cipher);
    assert(packed@ =~= auth_key_id@ + msg_key@ + cipher@);
    packed
}

/// Packs a plaintext for the server. It opens as the plaintext does.
pub fn seal_plaintext(plain: Vec<u8>, auth_key: &[u8], auth_key_id: &[u8]) -> (packed: Vec<u8>)
    requires
        auth_key@.len() == 256,
        auth_key_id@.len() == 8,
    ensures
        is_packed(packed@, auth_key@, auth_key_id@, plain@),
        ({
            let msg_key = packed@.subrange(8, 24);
            let a = primitives::sha256_of(msg_key + auth_key@.subrange(0, 36));
            let b = primitives::sha256_of(auth_key@.subrange(40, 76) + msg_key);
            let key = a.subrange(0, 8) + b.subrange(8, 24) + a.subrange(24, 32);
            let iv = b.subrange(0, 8) + a.subrange(8, 24) + b.subrange(24, 32);
            &&& packed@.len() == 24 + plain@.len()
            &&& packed@.subrange(0, 8) == auth_key_id@
            &&& msg_key == primitives::sha256_of(auth_key@.subrange(88, 120)
                + plain@).subrange(8, 24)
            &&& key.len() == 32
            &&& iv.len() == 32
            &&& packed@.skip(24) == ige::ige_encrypted(key, iv, plain@)
            &&& ige::ige_decrypted(key, iv, packed@.skip(24)) == plain@
        }),
{
    let ghost plain0 = plain@;
    let mut cipher: Vec<u8> = plain;
    let digest: [u8; 32] = hash_plaintext(auth_key, &cipher, 0);
    let msg_key: [u8; 16] = bytes::block_at(&digest, 8);
    assert(msg_key@ =~= middle(digest@));
    let (aes_key, aes_iv): ([u8; 32], [u8; 32]) = kdf::kdf_inner(auth_key, &msg_key, 0);
    ige::ige256_encrypt_slice(cipher.as_mut_slice(), &aes_key, &aes_iv);
    let packed: Vec<u8> = join_packed(auth_key_id, &msg_key, &cipher);
    proof {
        assert(packed@.subrange(0, 8) =~= auth_key_id@);
        assert(packed@.subrange(8, 24) =~= msg_key@);
        assert(packed@.skip(24) =~= cipher@);
        assert forall|session_id: Seq<u8>|
            #[trigger] unpack_outcome(packed@, session_id, auth_key@, auth_key_id@, false)
                == plaintext_outcome(
                plain0,
                msg_key_digest(auth_key@, plain0, 0),
                msg_key_of(auth_key@, plain0, 0),
                session_id,
            ) by {
            law_sealed_opens(auth_key@, auth_key_id@, plain0, session_id, false);
        }
    }
    packed
}

/// The error with which keys of these lengths are refused.
pub open spec fn pack_error(auth_key_len: nat, auth_key_id_len: nat) -> Option<CryptoError> {
    if auth_key_len != 256 {
        Some(CryptoError::AuthKeyLength)
    } else if auth_key_id_len != 8 {
        Some(CryptoError::AuthKeyIdLength)
    } else {
        None
    }
}

/// Packs a message for the server, with random padding. A message whose body length fits in a
/// signed 32-bit number opens again as it was.
pub fn pack_message(
    msg_id: i64,
    seq_no: i32,
    body: &[u8],
    salt: i64,
    session_id: &[u8],
    auth_key: &[u8],
    auth_key_id: &[u8],
) -> (res: Result<Vec<u8>, CryptoError>)
    requires
        pack_error(auth_key@.len(), auth_key_id@.len()) is None ==> session_id@.len() == 8,
    ensures
        res is Err <==> pack_error(auth_key@.len(), auth_key_id@.len()) is Some,
        res is Err ==> pack_error(auth_key@.len(), auth_key_id@.len()) == Some(res->Err_0),
        res is Ok ==> exists|padding: Seq<u8>|
            padding.len() == padding_len(body@.len()) && is_packed(
                res->Ok_0@,
                auth_key@,
                auth_key_id@,
                #[trigger] plaintext_of(salt, session_id@, msg_id, seq_no, body@, padding),
            ),
        res is Ok ==> res->Ok_0@.len() == 56 + body@.len() + padding_len(body@.len()),
        res is Ok ==> unpack_outcome(res->Ok_0@, session_id@, auth_key@, auth_key_id@, false)
            == reopened(msg_id, seq_no, body@, padding_len(body@.len())),
        res is Ok && body@.len() <= i32::MAX ==> unpack_outcome(
            res->Ok_0@,
            session_id@,
            auth_key@,
            auth_key_id@,
            false,
        ) == Ok::<(int, int, int, Seq<u8>, int), CryptoError>(
            (
                msg_id as int,
                seq_no as int,
                body@.len() as int,
                body@,
                bytes::signed_32(16 + body@.len() + padding_len(body@.len())),
            ),
        ),
        auth_key@.len() != 256 ==> res is Err && res->Err_0 == CryptoError::AuthKeyLength,
        auth_key@.len() == 256 && auth_key_id@.len() != 8 ==> res is Err && res->Err_0
            == CryptoError::AuthKeyIdLength,
        auth_key@.len() == 256 && auth_key_id@.len() == 8 ==> res is Ok && exists|plain: Seq<u8>|
            #![trigger primitives::sha256_of(auth_key@.subrange(88, 120) + plain)]
            ({
                let packed = res->Ok_0@;
                let msg_key = packed.subrange(8, 24);
                let a = primitives::sha256_of(msg_key + auth_key@.subrange(0, 36));
                let b = primitives::sha256_of(auth_key@.subrange(40, 76) + msg_key);
                let key = a.subrange(0, 8) + b.subrange(8, 24) + a.subrange(24, 32);
                let iv = b.subrange(0, 8) + a.subrange(8, 24) + b.subrange(24, 32);
                &&& 12 <= plain.len() - 32 - body@.len() <= 27
                &&& plain.len() % 16 == 0
                &&& plain.len() == 32 + body@.len() + padding_len(body@.len())
                &&& plain[0] + 0x100 * plain[1] + 0x1_0000 * plain[2] + 0x100_0000 * plain[3]
                    + 0x1_0000_0000 * plain[4] + 0x100_0000_0000 * plain[5]
                    + 0x1_0000_0000_0000 * plain[6] + 0x100_0000_0000_0000 * plain[7]
                    == (if salt >= 0 {
                    salt as int
                } else {
                    salt + 0x1_0000_0000_0000_0000
                })
                &&& plain.subrange(8, 16) == session_id@
                &&& plain[16] + 0x100 * plain[17] + 0x1_0000 * plain[18] + 0x100_0000 * plain[19]
                    + 0x1_0000_0000 * plain[20] + 0x100_0000_0000 * plain[21]
                    + 0x1_0000_0000_0000 * plain[22] + 0x100_0000_0000_0000 * plain[23]
                    == (if msg_id >= 0 {
                    msg_id as int
                } else {
                    msg_id + 0x1_0000_0000_0000_0000
                })
                &&& plain[24] + 0x100 * plain[25] + 0x1_0000 * plain[26] + 0x100_0000 * plain[27]
                    == (if seq_no >= 0 {
                    seq_no as int
                } else {
                    seq_no + 0x1_0000_0000
                })
                &&& plain[28] + 0x100 * plain[29] + 0x1_0000 * plain[30] + 0x100_0000 * plain[31]
                    == body@.len() % 0x1_0000_0000
                &&& plain.subrange(32, 32 + body@.len() as int) == body@
                &&& packed.len() == 24 + plain.len()
                &&& packed.subrange(0, 8) == auth_key_id@
                &&& msg_key == primitives::sha256_of(auth_key@.subrange(88, 120)
                    + plain).subrange(8, 24)
                &&& packed.skip(24) == ige::ige_encrypted(key, iv, plain)
                &&& ige::ige_decrypted(key, iv, packed.skip(24)) == plain
            }),
{
    if auth_key.len() != 256 {
        return Err(CryptoError::AuthKeyLength);
    }
    if auth_key_id.len() != 8 {
        return Err(CryptoError::AuthKeyIdLength);
    }
    let padding: Vec<u8> = primitives::random_bytes(padding_for(body.len()));
    let plain: Vec<u8> = message_plaintext(salt, session_id, msg_id, seq_no, body, &padding);
    let ghost plain0 = plain@;
    let packed: Vec<u8> = seal_plaintext(plain, auth_key, auth_key_id);
    proof {
        law_plaintext_opens(
            salt,
            session_id@,
            msg_id,
            seq_no,
            body@,
            padding@,
            msg_key_digest(auth_key@, plain0, 0),
        );
        if body@.len() <= i32::MAX {
            law_reopened_whole(msg_id, seq_no, body@, padding@.len());
        }
    }
    assert(plain0.len() % 16 == 0) by {
        law_padding(body@.len());
    }
    assert(packed@.subrange(8, 24) == primitives::sha256_of(
        auth_key@.subrange(88, 120) + plain0,
    ).subrange(8, 24));
    Ok(packed)
}

/// Opens a decrypted plaintext: checks it against the digest that must hold its message key,
/// and against the session, and takes the message out.
pub fn open_plaintext(
    plain: &[u8],
    digest: &[u8; 32],
    msg_key: &[u8; 16],
    session_id: &[u8],
) -> (res: Result<(i64, i32, i32, Vec<u8>, i32), CryptoError>)
    ensures
        is_outcome(res, plaintext_outcome(plain@, digest@, msg_key@, session_id@)),
        ({
            let id = plain@[16] + 0x100 * plain@[17] + 0x1_0000 * plain@[18]
                + 0x100_0000 * plain@[19] + 0x1_0000_0000 * plain@[20]
                + 0x100_0000_0000 * plain@[21] + 0x1_0000_0000_0000 * plain@[22]
                + 0x100_0000_0000_0000 * plain@[23];
            let seq_no = plain@[24] + 0x100 * plain@[25] + 0x1_0000 * plain@[26]
                + 0x100_0000 * plain@[27];
            let length = plain@[28] + 0x100 * plain@[29] + 0x1_0000 * plain@[30]
                + 0x100_0000 * plain@[31];
            if plain@.len() < 32 || digest@.subrange(8, 24) != msg_key@ {
                res is Err && res->Err_0 == CryptoError::MsgKeyMismatch
            } else if plain@.subrange(8, 16) != session_id@ {
                res is Err && res->Err_0 == CryptoError::SessionIdMismatch
            } else if length >= 0x8000_0000 {
                res is Err && res->Err_0 == CryptoError::NegativeBodyLength
            } else if 32 + length > plain@.len() {
                res is Err && res->Err_0 == CryptoError::BodyTooLong
            } else {
                &&& res is Ok
                &&& res->Ok_0.0 == (if id < 0x8000_0000_0000_0000 {
                    id as int
                } else {
                    id - 0x1_0000_0000_0000_0000
                })
                &&& res->Ok_0.1 == (if seq_no < 0x8000_0000 {
                    seq_no as int
                } else {
                    seq_no - 0x1_0000_0000
                })
                &&& res->Ok_0.2 == length
                &&& res->Ok_0.3@ == plain@.subrange(32, 32 + length)
                &&& (plain@.len() - 16 - res->Ok_0.4) % 0x1_0000_0000 == 0
            }
        }),
{
    if plain.len() < 32 {
        return Err(CryptoError::MsgKeyMismatch);
    }
    assert(digest@.subrange(8, 24) =~= middle(digest@));
    if !bytes::same_bytes(&bytes::block_at(digest, 8), msg_key) {
        return Err(CryptoError::MsgKeyMismatch);
    }
    if !bytes::same_bytes(vstd::slice::slice_subrange(plain, 8, 16), session_id) {
        return Err(CryptoError::SessionIdMismatch);
    }
    let msg_id: i64 = bytes::to_i64(bytes::read_u64(plain, 16));
    let seq_no: i32 = bytes::to_i32(bytes::read_u32(plain, 24));
    let length: i32 = bytes::to_i32(bytes::read_u32(plain, 28));
    if length < 0 {
        return Err(CryptoError::NegativeBodyLength);
    }
    let end: usize = 32 + length as usize;
    if end > plain.len() {
        return Err(CryptoError::BodyTooLong);
    }
    let total_len: i32 = bytes::to_i32(bytes::low_u32(plain.len() - 16));
    let body: Vec<u8> = vstd::slice::slice_to_vec(vstd::slice::slice_subrange(plain, 32, end));
    Ok((msg_id, seq_no, length, body, total_len))
}

/// Opens a packed message and returns message identifier, sequence number, body length, body,
/// and the length of all that follows the session identifier. `incoming` messages come from
/// the server.
pub fn unpack_message(
    packed: &[u8],
    session_id: &[u8],
    auth_key: &[u8],
    auth_key_id: &[u8],
    incoming: bool,
) -> (res: Result<(i64, i32, i32, Vec<u8>, i32), CryptoError>)
    ensures
        is_outcome(
            res,
            unpack_outcome(packed@, session_id@, auth_key@, auth_key_id@, incoming),
        ),
        ({
            let x: int = if incoming { 8 } else { 0 };
            let msg_key = packed@.subrange(8, 24);
            let a = primitives::sha256_of(msg_key + auth_key@.subrange(x, x + 36));
            let b = primitives::sha256_of(auth_key@.subrange(x + 40, x + 76) + msg_key);
            let key = a.subrange(0, 8) + b.subrange(8, 24) + a.subrange(24, 32);
            let iv = b.subrange(0, 8) + a.subrange(8, 24) + b.subrange(24, 32);
            let plain = ige::ige_decrypted(key, iv, packed@.skip(24));
            let digest = primitives::sha256_of(auth_key@.subrange(88 + x, 120 + x) + plain);
            let id = plain[16] + 0x100 * plain[17] + 0x1_0000 * plain[18] + 0x100_0000 * plain[19]
                + 0x1_0000_0000 * plain[20] + 0x100_0000_0000 * plain[21]
                + 0x1_0000_0000_0000 * plain[22] + 0x100_0000_0000_0000 * plain[23];
            let seq_no = plain[24] + 0x100 * plain[25] + 0x1_0000 * plain[26]
                + 0x100_0000 * plain[27];
            let length = plain[28] + 0x100 * plain[29] + 0x1_0000 * plain[30]
                + 0x100_0000 * plain[31];
            if auth_key@.len() != 256 {
                res is Err && res->Err_0 == CryptoError::AuthKeyLength
            } else if auth_key_id@.len() != 8 {
                res is Err && res->Err_0 == CryptoError::AuthKeyIdLength
            } else if packed@.len() < 24 {
                res is Err && res->Err_0 == CryptoError::PackedTooShort
            } else if packed@.subrange(0, 8) != auth_key_id@ {
                res is Err && res->Err_0 == CryptoError::AuthKeyIdMismatch
            } else if plain.len() < 32 || digest.subrange(8, 24) != msg_key {
                res is Err && res->Err_0 == CryptoError::MsgKeyMismatch
            } else if plain.subrange(8, 16) != session_id@ {
                res is Err && res->Err_0 == CryptoError::SessionIdMismatch
            } else if length >= 0x8000_0000 {
                res is Err && res->Err_0 == CryptoError::NegativeBodyLength
            } else if 32 + length > plain.len() {
                res is Err && res->Err_0 == CryptoError::BodyTooLong
            } else {
                &&& res is Ok
                &&& res->Ok_0.0 == (if id < 0x8000_0000_0000_0000 {
                    id as int
                } else {
                    id - 0x1_0000_0000_0000_0000
                })
                &&& res->Ok_0.1 == (if seq_no < 0x8000_0000 {
                    seq_no as int
                } else {
                    seq_no - 0x1_0000_0000
                })
                &&& res->Ok_0.2 == length
                &&& res->Ok_0.3@ == plain.subrange(32, 32 + length)
                &&& (plain.len() - 16 - res->Ok_0.4) % 0x1_0000_0000 == 0
            }
        }),
        forall|plain: Seq<u8>|
            #![trigger primitives::sha256_of(auth_key@.subrange(88, 120) + plain)]
            #![trigger primitives::sha256_of(auth_key@.subrange(96, 128) + plain)]
            ({
                let x: int = if incoming { 8 } else { 0 };
                let msg_key = packed@.subrange(8, 24);
                let a = primitives::sha256_of(msg_key + auth_key@.subrange(x, x + 36));
                let b = primitives::sha256_of(auth_key@.subrange(x + 40, x + 76) + msg_key);
                let key = a.subrange(0, 8) + b.subrange(8, 24) + a.subrange(24, 32);
                let iv = b.subrange(0, 8) + a.subrange(8, 24) + b.subrange(24, 32);
                let length = plain[28] + 0x100 * plain[29] + 0x1_0000 * plain[30]
                    + 0x100_0000 * plain[31];
                &&& auth_key@.len() == 256
                &&& auth_key_id@.len() == 8
                &&& packed@.len() >= 24
                &&& packed@.subrange(0, 8) == auth_key_id@
                &&& packed@.skip(24) == ige::ige_encrypted(key, iv, plain)
                &&& msg_key == primitives::sha256_of(auth_key@.subrange(88 + x, 120 + x)
                    + plain).subrange(8, 24)
                &&& plain.len() >= 32
                &&& plain.subrange(8, 16) == session_id@
                &&& length < 0x8000_0000
                &&& 32 + length <= plain.len()
            }) ==> ({
                let id = plain[16] + 0x100 * plain[17] + 0x1_0000 * plain[18]
                    + 0x100_0000 * plain[19] + 0x1_0000_0000 * plain[20]
                    + 0x100_0000_0000 * plain[21] + 0x1_0000_0000_0000 * plain[22]
                    + 0x100_0000_0000_0000 * plain[23];
                let seq_no = plain[24] + 0x100 * plain[25] + 0x1_0000 * plain[26]
                    + 0x100_0000 * plain[27];
                let length = plain[28] + 0x100 * plain[29] + 0x1_0000 * plain[30]
                    + 0x100_0000 * plain[31];
                &&& res is Ok
                &&& res->Ok_0.0 == (if id < 0x8000_0000_0000_0000 {
                    id as int
                } else {
                    id - 0x1_0000_0000_0000_0000
                })
                &&& res->Ok_0.1 == (if seq_no < 0x8000_0000 {
                    seq_no as int
                } else {
                    seq_no - 0x1_0000_0000
                })
                &&& res->Ok_0.2 == length
                &&& res->Ok_0.3@ == plain.subrange(32, 32 + length)
                &&& (plain.len() - 16 - res->Ok_0.4) % 0x1_0000_0000 == 0
            }),
{
    if auth_key.len() != 256 {
        return Err(CryptoError::AuthKeyLength);
    }
    if auth_key_id.len() != 8 {
        return Err(CryptoError::AuthKeyIdLength);
    }
    if packed.len() < 24 {
        return Err(CryptoError::PackedTooShort);
    }
    if !bytes::same_bytes(vstd::slice::slice_subrange(packed, 0, 8), auth_key_id) {
        return Err(CryptoError::AuthKeyIdMismatch);
    }
    let msg_key: [u8; 16] = bytes::block_at(packed, 8);
    let x: usize = if incoming {
        8
    } else {
        0
    };
    let (aes_key, aes_iv): ([u8; 32], [u8; 32]) = kdf::kdf_inner(auth_key, &msg_key, x);
    let rest: &[u8] = vstd::slice::slice_subrange(packed, 24, packed.len());
    assert(rest@ =~= packed@.skip(24));
    let mut plain: Vec<u8> = vstd::slice::slice_to_vec(rest);
    ige::ige256_decrypt_slice(plain.as_mut_slice(), &aes_key, &aes_iv);
    let digest: [u8; 32] = hash_plaintext(auth_key, &plain, x);
    open_plaintext(&plain, &digest, &msg_key, session_id)
}

} // verus!
