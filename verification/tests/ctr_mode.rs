use harukacrypto::counter::ctr_next;
use harukacrypto::ctr::{apply_keystream, ctr_process, position_of_state};
use harukacrypto::{
    ctr256_decrypt, ctr256_decrypt_inplace, ctr256_encrypt, ctr256_encrypt_inplace, CryptoError,
};

const KEY: &str = "603deb1015ca71be2b73aef0857d77811f352c073b6108d72d9810a30914dff4";
const PLAIN: &str = "6bc1bee22e409f96e93d7e117393172aae2d8a571e03ac9c9eb76fac45af8e5130c81c46a35ce411e5fbc1191a0a52eff69f2445df4f9b17ad2b417be66c3710";
const CIPHER: &str = "601ec313775789a5b7a7f504bbf3d228f443e3ca4d62b59aca84e990cacaf5c52b0930daa23de94ce87017ba2d84988ddfc9c58db67aada613c2dd08457941a6";

fn hex(s: &str) -> Vec<u8> {
    (0..s.len() / 2)
        .map(|i| u8::from_str_radix(&s[2 * i..2 * i + 2], 16).unwrap())
        .collect()
}

fn first_counter() -> Vec<u8> {
    (0xf0u8..=0xff).collect()
}

#[test]
fn counter_moves_one_on() {
    let mut ctr = [0u8; 16];
    ctr_next(&mut ctr);
    assert_eq!(ctr, [0, 0, 0, 0, 0, 0, 0, 0, 0, 0, 0, 0, 0, 0, 0, 1]);
}

#[test]
fn counter_carries() {
    let mut ctr = [7, 0, 0, 0, 0, 0, 0, 0, 0, 0, 0, 0, 0, 3, 255, 255];
    ctr_next(&mut ctr);
    assert_eq!(ctr, [7, 0, 0, 0, 0, 0, 0, 0, 0, 0, 0, 0, 0, 4, 0, 0]);
}

#[test]
fn counter_wraps_around() {
    let mut ctr = [255u8; 16];
    ctr_next(&mut ctr);
    assert_eq!(ctr, [0u8; 16]);
}

#[test]
fn keystream_lands_where_it_is_told() {
    let mut data = [0x10u8, 0x20, 0x30, 0x40];
    let mut block = [0u8; 16];
    block[14] = 0x0f;
    block[15] = 0xf0;
    apply_keystream(&mut data, 1, 2, &block, 14);
    assert_eq!(data, [0x10, 0x2f, 0xc0, 0x40]);
}

#[test]
fn states_beyond_a_block_count_as_its_start() {
    assert_eq!(position_of_state(0), 0);
    assert_eq!(position_of_state(15), 15);
    assert_eq!(position_of_state(16), 0);
    assert_eq!(position_of_state(255), 0);
}

#[test]
fn ctr_encrypts_a_known_message() {
    let mut iv = first_counter();
    let mut state = [0u8];
    let out = ctr256_encrypt(&hex(PLAIN), &hex(KEY), &mut iv, &mut state).unwrap();
    assert_eq!(out, hex(CIPHER));
    assert_eq!(iv, hex("f0f1f2f3f4f5f6f7f8f9fafbfcfdff03"));
    assert_eq!(state, [0]);
}

#[test]
fn ctr_decrypts_a_known_message() {
    let mut iv = first_counter();
    let mut state = [0u8];
    let out = ctr256_decrypt(&hex(CIPHER), &hex(KEY), &mut iv, &mut state).unwrap();
    assert_eq!(out, hex(PLAIN));
}

#[test]
fn ctr_starts_within_a_block_and_wraps_the_counter() {
    let data: Vec<u8> = (0..20u8).collect();
    let mut iv = vec![255u8; 16];
    let mut state = [5u8];
    let out = ctr256_encrypt(&data, &hex(KEY), &mut iv, &mut state).unwrap();
    assert_eq!(out, hex("5a25dc99c203c86a1569c6ee64fb8f9bdf67c404"));
    assert_eq!(iv, vec![0u8; 16]);
    assert_eq!(state, [9]);
}

#[test]
fn ctr_takes_a_state_beyond_a_block_as_zero() {
    for bad in [16u8, 17, 255] {
        let mut iv = first_counter();
        let mut state = [bad, 42];
        let out = ctr256_encrypt(&hex(PLAIN)[..20], &hex(KEY), &mut iv, &mut state).unwrap();
        assert_eq!(out, hex(CIPHER)[..20]);
        assert_eq!(state, [4, 42]);
    }
}

#[test]
fn ctr_on_no_data_moves_nothing() {
    let mut iv = first_counter();
    let mut state = [7u8];
    assert_eq!(
        ctr256_encrypt(b"", &hex(KEY), &mut iv, &mut state).unwrap(),
        Vec::<u8>::new()
    );
    assert_eq!(iv, first_counter());
    assert_eq!(state, [7]);
}

#[test]
fn ctr_stream_may_be_cut_anywhere() {
    let data: Vec<u8> = (0..300).map(|i| (i * 5 % 251) as u8).collect();
    let mut iv = first_counter();
    let mut state = [3u8];
    let whole = ctr256_encrypt(&data, &hex(KEY), &mut iv, &mut state).unwrap();
    for cut in [0, 1, 12, 13, 14, 29, 128, 141, 299, 300] {
        let mut iv2 = first_counter();
        let mut state2 = [3u8];
        let mut parts = ctr256_encrypt(&data[..cut], &hex(KEY), &mut iv2, &mut state2).unwrap();
        parts.extend(ctr256_encrypt(&data[cut..], &hex(KEY), &mut iv2, &mut state2).unwrap());
        assert_eq!(parts, whole);
        assert_eq!(iv2, iv);
        assert_eq!(state2, state);
        let mut iv3 = first_counter();
        let mut state3 = [3u8];
        assert_eq!(
            ctr256_decrypt(&parts, &hex(KEY), &mut iv3, &mut state3).unwrap(),
            data
        );
    }
}

#[test]
fn ctr_in_place_is_the_same_stream() {
    let data: Vec<u8> = (0..200).map(|i| (i * 3 % 256) as u8).collect();
    let mut iv = first_counter();
    let mut state = [11u8];
    let out = ctr256_encrypt(&data, &hex(KEY), &mut iv, &mut state).unwrap();
    let mut buf = data.clone();
    let mut iv2 = first_counter();
    let mut state2 = [11u8];
    assert_eq!(
        ctr256_encrypt_inplace(&mut buf, &hex(KEY), &mut iv2, &mut state2),
        Ok(())
    );
    assert_eq!(buf, out);
    assert_eq!(iv2, iv);
    assert_eq!(state2, state);
    let mut iv3 = first_counter();
    let mut state3 = [11u8];
    assert_eq!(
        ctr256_decrypt_inplace(&mut buf, &hex(KEY), &mut iv3, &mut state3),
        Ok(())
    );
    assert_eq!(buf, data);
}

#[test]
fn ctr_process_works_on_a_part_of_a_buffer() {
    let mut buf = hex(PLAIN);
    let mut ctr = [0u8; 16];
    ctr.copy_from_slice(&first_counter());
    let mut state = 0usize;
    ctr_process(&mut buf[..17], &hex(KEY), &mut ctr, &mut state);
    assert_eq!(buf[..17], hex(CIPHER)[..17]);
    assert_eq!(buf[17..], hex(PLAIN)[17..]);
    assert_eq!(state, 1);
}

#[test]
fn ctr_refuses_wrong_lengths_and_changes_nothing() {
    let mut iv = vec![1u8; 16];
    let mut state = [2u8];
    assert_eq!(
        ctr256_encrypt(b"data", &[0u8; 31], &mut iv, &mut state),
        Err(CryptoError::KeyLength)
    );
    assert_eq!((iv, state), (vec![1u8; 16], [2u8]));
    let mut short = vec![1u8; 15];
    let mut data = *b"data";
    assert_eq!(
        ctr256_encrypt_inplace(&mut data, &[0u8; 32], &mut short, &mut state),
        Err(CryptoError::CtrIvLength)
    );
    assert_eq!(&data, b"data");
    assert_eq!((short, state), (vec![1u8; 15], [2u8]));
    let mut empty: [u8; 0] = [];
    assert_eq!(
        ctr256_decrypt(b"data", &[0u8; 32], &mut [0u8; 17], &mut empty),
        Err(CryptoError::CtrIvLength)
    );
    assert_eq!(
        ctr256_decrypt_inplace(&mut data, &[0u8; 33], &mut [0u8; 17], &mut empty),
        Err(CryptoError::KeyLength)
    );
}
