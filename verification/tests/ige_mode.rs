use harukacrypto::ige::{ige256_decrypt_slice, ige256_encrypt_slice};
use harukacrypto::{ige256_decrypt, ige256_encrypt, CryptoError};

const KEY: &str = "603deb1015ca71be2b73aef0857d77811f352c073b6108d72d9810a30914dff4";
const PLAIN: &str = "6bc1bee22e409f96e93d7e117393172aae2d8a571e03ac9c9eb76fac45af8e5130c81c46a35ce411e5fbc1191a0a52eff69f2445df4f9b17ad2b417be66c3710";

fn hex(s: &str) -> Vec<u8> {
    (0..s.len() / 2)
        .map(|i| u8::from_str_radix(&s[2 * i..2 * i + 2], 16).unwrap())
        .collect()
}

fn sample(len: usize) -> Vec<u8> {
    (0..len).map(|i| ((7 * i + 3) % 256) as u8).collect()
}

#[test]
fn ige_encrypts_blocks_in_a_chain() {
    let out = ige256_encrypt(&hex(PLAIN), &hex(KEY), &[0u8; 32]).unwrap();
    assert_eq!(
        out,
        hex("f3eed1bdb5d2a03c064b5a7e3db181f8880535aa181c648235a7d426c238d676e28ae9810bbd0e3d44090475ad1f7a7c8dbcc7a694ba0f8b9fa21ed7fea4f2a9")
    );
}

#[test]
fn ige_uses_both_halves_of_the_vector_and_keeps_the_tail() {
    let iv: Vec<u8> = (0..32u8).collect();
    let data = sample(40);
    let out = ige256_encrypt(&data, &hex(KEY), &iv).unwrap();
    assert_eq!(
        out,
        hex("7b1dd0e92b12d71741655b305ca3a52a8898fcbe723660879185a9b56760edf5e3eaf1f8ff060d14")
    );
    assert_eq!(out[32..], data[32..]);
}

#[test]
fn ige_decrypts_a_known_message() {
    let iv: Vec<u8> = (0..32u8).collect();
    let cipher =
        hex("7b1dd0e92b12d71741655b305ca3a52a8898fcbe723660879185a9b56760edf5e3eaf1f8ff060d14");
    assert_eq!(ige256_decrypt(&cipher, &hex(KEY), &iv).unwrap(), sample(40));
}

#[test]
fn ige_decryption_gives_the_payload_back() {
    let key: Vec<u8> = sample(32);
    let iv: Vec<u8> = sample(64)[32..].to_vec();
    for len in [0, 1, 15, 16, 17, 100, 1024] {
        let payload = sample(len);
        let cipher = ige256_encrypt(&payload, &key, &iv).unwrap();
        assert_eq!(cipher.len(), len);
        assert_eq!(ige256_decrypt(&cipher, &key, &iv).unwrap(), payload);
    }
}

#[test]
fn ige_encryption_gives_the_cipher_back() {
    let key: Vec<u8> = sample(32);
    let iv: Vec<u8> = sample(64)[32..].to_vec();
    for len in [0, 15, 16, 50, 160] {
        let cipher = sample(len);
        let plain = ige256_decrypt(&cipher, &key, &iv).unwrap();
        assert_eq!(ige256_encrypt(&plain, &key, &iv).unwrap(), cipher);
    }
}

#[test]
fn ige_leaves_less_than_a_block_alone() {
    assert_eq!(
        ige256_encrypt(b"short", &[9u8; 32], &[1u8; 32]).unwrap(),
        b"short".to_vec()
    );
}

#[test]
fn ige_refuses_wrong_lengths() {
    for len in [0, 16, 31, 33] {
        let bad = vec![0u8; len];
        assert_eq!(
            ige256_encrypt(b"", &bad, &[0u8; 32]),
            Err(CryptoError::KeyLength)
        );
        assert_eq!(
            ige256_decrypt(b"", &bad, &[0u8; 32]),
            Err(CryptoError::KeyLength)
        );
        assert_eq!(
            ige256_encrypt(b"", &[0u8; 32], &bad),
            Err(CryptoError::IgeIvLength)
        );
        assert_eq!(
            ige256_decrypt(b"", &[0u8; 32], &bad),
            Err(CryptoError::IgeIvLength)
        );
        assert_eq!(
            ige256_encrypt(b"", &bad, &bad),
            Err(CryptoError::KeyLength)
        );
    }
}

#[test]
fn ige_reads_the_first_bytes_of_a_longer_vector() {
    let iv: Vec<u8> = (0..40u8).collect();
    let mut buf = sample(40);
    ige256_encrypt_slice(&mut buf, &hex(KEY), &iv);
    assert_eq!(
        buf,
        hex("7b1dd0e92b12d71741655b305ca3a52a8898fcbe723660879185a9b56760edf5e3eaf1f8ff060d14")
    );
    ige256_decrypt_slice(&mut buf, &hex(KEY), &iv);
    assert_eq!(buf, sample(40));
}

#[test]
fn ige_chain_resumes_behind_whole_blocks() {
    let key = sample(32);
    let iv = sample(64)[32..].to_vec();
    let data = sample(100);
    let whole = ige256_encrypt(&data, &key, &iv).unwrap();
    for cut in [16, 32, 80, 96] {
        let mut next = whole[cut - 16..cut].to_vec();
        next.extend(&data[cut - 16..cut]);
        assert_eq!(
            ige256_encrypt(&data[..cut], &key, &iv).unwrap(),
            whole[..cut]
        );
        assert_eq!(
            ige256_encrypt(&data[cut..], &key, &next).unwrap(),
            whole[cut..]
        );
        assert_eq!(
            ige256_decrypt(&whole[cut..], &key, &next).unwrap(),
            data[cut..]
        );
    }
}
