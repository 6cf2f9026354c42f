use harukacrypto::kdf::key_and_iv;
use harukacrypto::message::{message_plaintext, open_plaintext, padding_for, seal_plaintext};
use harukacrypto::{
    ige256_decrypt, kdf, pack_message, sha256_digest, unpack_message, CryptoError,
};

const SEALED_OUT: &str = "4b4559494431323397b16bf1411805ce00eb038e52933ab399ce28b2e99b29c3f41289865d1fcd814dddc939040c158eaf7ade9624b8e1ccc02130e5e414cf20ba81f81557b70c3bb9af9029bb0ea8f965912e01c21628c7";
const SEALED_IN: &str = "4b45594944313233bb5eb1a6e7729ee0f77a31b4b4d8e910507bf96dcbb244b1f58e24eae8186c10017411058598c8741ab4564199c3cdcb3e31e0088d25b7b44b30cfb33595ae3586af723e40386401ebe0f9cb5aa1b071";
const PLAIN: &str = "feffffffffffffff53455353494f4e580807060504030201f9ffffff0d00000068656c6c6f206d7470726f746f00000000000000000000000000000000000000";

fn hex(s: &str) -> Vec<u8> {
    (0..s.len() / 2)
        .map(|i| u8::from_str_radix(&s[2 * i..2 * i + 2], 16).unwrap())
        .collect()
}

fn auth_key() -> Vec<u8> {
    (0..256usize).map(|i| ((i * i + 11) % 256) as u8).collect()
}

fn known_plaintext() -> Vec<u8> {
    message_plaintext(
        -2,
        b"SESSIONX",
        0x0102030405060708,
        -7,
        b"hello mtproto",
        &[0u8; 19],
    )
}

fn with_length(length: i32) -> Vec<u8> {
    let mut plain = known_plaintext();
    plain[28..32].copy_from_slice(&length.to_le_bytes());
    seal_plaintext(plain, &auth_key(), b"KEYID123")
}

fn open(packed: &[u8]) -> Result<(i64, i32, i32, Vec<u8>, i32), CryptoError> {
    unpack_message(packed, b"SESSIONX", &auth_key(), b"KEYID123", false)
}

#[test]
fn sha256_of_known_messages() {
    assert_eq!(
        sha256_digest(b"abc"),
        hex("ba7816bf8f01cfea414140de5dae2223b00361a396177a9cb410ff61f20015ad")
    );
    assert_eq!(
        sha256_digest(b""),
        hex("e3b0c44298fc1c149afbf4c8996fb92427ae41e4649b934ca495991b7852b855")
    );
    assert_eq!(sha256_digest(&[7u8; 1024]).len(), 32);
}

#[test]
fn kdf_takes_the_ends_of_one_digest_and_the_middle_of_the_other() {
    let (key, iv) = key_and_iv(&[0xaau8; 32], &[0xbbu8; 32]);
    let mut expected = [0xaau8; 32];
    expected[8..24].copy_from_slice(&[0xbbu8; 16]);
    assert_eq!(key, expected);
    let mut expected = [0xbbu8; 32];
    expected[8..24].copy_from_slice(&[0xaau8; 16]);
    assert_eq!(iv, expected);
}

#[test]
fn kdf_of_known_keys() {
    let msg_key: Vec<u8> = (100..116u8).collect();
    assert_eq!(
        kdf(&auth_key(), &msg_key, true),
        Ok((
            hex("5f933c6134f6ad95856fb15f47d8f2b467d0667d52c13285f97b6e66379fa518"),
            hex("b75387d0fe84ef2abff17cfae20058ae19ee3d534dc813092cbb8c7e4c4de857")
        ))
    );
    assert_eq!(
        kdf(&auth_key(), &msg_key, false),
        Ok((
            hex("53f02812482a54dac91e465ccf9de99948bf4ee69b6bb8bc00109fb14ffdce61"),
            hex("f97f49b563b3c828b53bddadf030284cf3f79ad365663ba8e1915163eeca7ea5")
        ))
    );
}

#[test]
fn kdf_refuses_a_wrong_key() {
    assert_eq!(
        kdf(&[0u8; 255], &[0u8; 16], true),
        Err(CryptoError::AuthKeyLength)
    );
}

#[test]
fn padding_fills_up_whole_blocks() {
    assert_eq!(padding_for(0), 16);
    assert_eq!(padding_for(3), 13);
    assert_eq!(padding_for(4), 12);
    assert_eq!(padding_for(5), 27);
    assert_eq!(padding_for(13), 19);
    for len in 0..64 {
        let n = padding_for(len);
        assert!(n >= 12 && n <= 27);
        assert_eq!((32 + len + n) % 16, 0);
        assert_eq!(n, ((32 + len + 12 + 15) & !15) - (32 + len));
    }
}

#[test]
fn plaintext_of_a_known_message() {
    assert_eq!(known_plaintext(), hex(PLAIN));
}

#[test]
fn sealed_form_of_a_known_message() {
    assert_eq!(
        seal_plaintext(known_plaintext(), &auth_key(), b"KEYID123"),
        hex(SEALED_OUT)
    );
}

#[test]
fn known_messages_open_in_their_direction() {
    let expected = Ok((
        0x0102030405060708i64,
        -7,
        13,
        b"hello mtproto".to_vec(),
        48,
    ));
    assert_eq!(open(&hex(SEALED_OUT)), expected);
    assert_eq!(
        unpack_message(
            &hex(SEALED_IN),
            b"SESSIONX",
            &auth_key(),
            b"KEYID123",
            true
        ),
        expected
    );
    assert_eq!(
        unpack_message(
            &hex(SEALED_OUT),
            b"SESSIONX",
            &auth_key(),
            b"KEYID123",
            true
        ),
        Err(CryptoError::MsgKeyMismatch)
    );
    assert_eq!(open(&hex(SEALED_IN)), Err(CryptoError::MsgKeyMismatch));
}

#[test]
fn packed_messages_open_again() {
    for (len, msg_id, seq_no) in [
        (0usize, 0i64, 0i32),
        (1, 1, 1),
        (4, -1, -1),
        (5, i64::MAX, i32::MAX),
        (1000, i64::MIN, i32::MIN),
    ] {
        let body: Vec<u8> = (0..len).map(|i| (i % 253) as u8).collect();
        let packed = pack_message(
            msg_id,
            seq_no,
            &body,
            -9,
            b"SESSIONX",
            &auth_key(),
            b"KEYID123",
        )
        .unwrap();
        assert_eq!(packed.len(), 56 + len + padding_for(len));
        assert_eq!(&packed[..8], b"KEYID123");
        let total = (16 + len + padding_for(len)) as i32;
        assert_eq!(
            open(&packed),
            Ok((msg_id, seq_no, len as i32, body, total))
        );
    }
}

#[test]
fn padding_is_not_handed_back_as_zeros() {
    let packed =
        pack_message(1, 2, b"four", 3, b"SESSIONX", &auth_key(), b"KEYID123").unwrap();
    let (key, iv) = kdf(&auth_key(), &packed[8..24], true).unwrap();
    let plain = ige256_decrypt(&packed[24..], &key, &iv).unwrap();
    assert_eq!(plain.len(), 48);
    assert_eq!(plain[..8], 3i64.to_le_bytes());
    assert_eq!(&plain[8..16], b"SESSIONX");
    assert_eq!(&plain[32..36], b"four");
    assert_ne!(plain[36..], [0u8; 12]);
}

#[test]
fn packing_refuses_wrong_keys() {
    assert_eq!(
        pack_message(1, 2, b"", 3, b"", &[0u8; 255], b""),
        Err(CryptoError::AuthKeyLength)
    );
    assert_eq!(
        pack_message(1, 2, b"", 3, b"", &auth_key(), b"KEYID12"),
        Err(CryptoError::AuthKeyIdLength)
    );
}

#[test]
fn unpacking_refuses_wrong_keys_and_headers() {
    let packed = hex(SEALED_OUT);
    assert_eq!(
        unpack_message(&packed, b"SESSIONX", &[0u8; 257], b"", false),
        Err(CryptoError::AuthKeyLength)
    );
    assert_eq!(
        unpack_message(&packed, b"SESSIONX", &auth_key(), b"KEYID1234", false),
        Err(CryptoError::AuthKeyIdLength)
    );
    assert_eq!(open(&packed[..23]), Err(CryptoError::PackedTooShort));
    assert_eq!(
        unpack_message(&packed, b"SESSIONX", &auth_key(), b"KEYID124", false),
        Err(CryptoError::AuthKeyIdMismatch)
    );
}

#[test]
fn unpacking_refuses_changed_content() {
    for at in [8, 23, 24, 40, 60, 87] {
        let mut packed = hex(SEALED_OUT);
        packed[at] ^= 1;
        assert_eq!(open(&packed), Err(CryptoError::MsgKeyMismatch));
    }
    assert_eq!(
        open(&hex(SEALED_OUT)[..24]),
        Err(CryptoError::MsgKeyMismatch)
    );
    assert_eq!(
        open(&hex(SEALED_OUT)[..55]),
        Err(CryptoError::MsgKeyMismatch)
    );
}

#[test]
fn unpacking_refuses_another_session() {
    for session in [&b"SESSIONY"[..], &b"SESSION"[..], &b""[..]] {
        assert_eq!(
            unpack_message(
                &hex(SEALED_OUT),
                session,
                &auth_key(),
                b"KEYID123",
                false
            ),
            Err(CryptoError::SessionIdMismatch)
        );
    }
}

#[test]
fn unpacking_refuses_wrong_body_lengths() {
    assert_eq!(open(&with_length(-1)), Err(CryptoError::NegativeBodyLength));
    assert_eq!(
        open(&with_length(i32::MIN)),
        Err(CryptoError::NegativeBodyLength)
    );
    assert_eq!(open(&with_length(33)), Err(CryptoError::BodyTooLong));
    assert_eq!(open(&with_length(i32::MAX)), Err(CryptoError::BodyTooLong));
    assert_eq!(open(&with_length(32)).unwrap().3.len(), 32);
    assert_eq!(open(&with_length(0)).unwrap().3, Vec::<u8>::new());
}

#[test]
fn opening_checks_the_middle_of_the_digest() {
    let plain = known_plaintext();
    let mut digest = [1u8; 32];
    digest[8..24].copy_from_slice(&[5u8; 16]);
    assert_eq!(
        open_plaintext(&plain, &digest, &[5u8; 16], b"SESSIONX"),
        Ok((
            0x0102030405060708,
            -7,
            13,
            b"hello mtproto".to_vec(),
            48
        ))
    );
    digest[23] = 6;
    assert_eq!(
        open_plaintext(&plain, &digest, &[5u8; 16], b"SESSIONX"),
        Err(CryptoError::MsgKeyMismatch)
    );
    assert_eq!(
        open_plaintext(&plain[..31], &[5u8; 32], &[5u8; 16], b"SESSIONX"),
        Err(CryptoError::MsgKeyMismatch)
    );
}

#[test]
fn errors_have_their_texts() {
    let texts = [
        (CryptoError::KeyLength, "Key must be 32 bytes"),
        (CryptoError::IgeIvLength, "IV must be 32 bytes"),
        (CryptoError::CtrIvLength, "IV must be 16 bytes"),
        (CryptoError::BatchIvsLength, "ivs must be 16*n bytes"),
        (CryptoError::BatchSizesLength, "sizes must be 4*n bytes"),
        (CryptoError::BatchSizeOverflow, "total data size overflow"),
        (
            CryptoError::BatchDataTooShort,
            "data_flat too short for given sizes",
        ),
        (CryptoError::AuthKeyLength, "auth_key must be 256 bytes"),
        (CryptoError::AuthKeyIdLength, "auth_key_id must be 8 bytes"),
        (CryptoError::PackedTooShort, "packed data too short"),
        (CryptoError::AuthKeyIdMismatch, "auth_key_id mismatch"),
        (CryptoError::MsgKeyMismatch, "msg_key mismatch"),
        (CryptoError::SessionIdMismatch, "session_id mismatch"),
        (CryptoError::NegativeBodyLength, "negative body length"),
        (
            CryptoError::BodyTooLong,
            "body length exceeds decrypted data",
        ),
    ];
    for (error, text) in texts {
        assert_eq!(error.message(), text);
    }
}
