use harukacrypto::batch::batch_offsets;
use harukacrypto::{ctr256_decrypt_batch, ctr256_encrypt, ctr256_encrypt_batch, CryptoError};

fn sizes(list: &[u32]) -> Vec<u8> {
    list.iter().flat_map(|n| n.to_le_bytes()).collect()
}

#[test]
fn offsets_add_up_the_sizes() {
    assert_eq!(
        batch_offsets(&sizes(&[5, 0, 258, 1]), 4),
        Ok(vec![0, 5, 5, 263, 264])
    );
    assert_eq!(batch_offsets(&[], 0), Ok(vec![0]));
}

#[test]
fn batch_is_item_by_item() {
    let key = [0x42u8; 32];
    let data: Vec<u8> = (0..200).map(|i| (i * 7 % 256) as u8).collect();
    let lens = [33u32, 0, 130, 16];
    let ivs0: Vec<u8> = (0..64u8).map(|i| i.wrapping_mul(9)).collect();
    let states0 = vec![0u8, 15, 9, 200];
    let mut ivs = ivs0.clone();
    let mut states = states0.clone();
    let out = ctr256_encrypt_batch(&data, &sizes(&lens), &key, &mut ivs, &mut states).unwrap();
    assert_eq!(out.len(), data.len());
    let mut at = 0usize;
    for i in 0..4 {
        let end = at + lens[i] as usize;
        let mut iv = ivs0[16 * i..16 * i + 16].to_vec();
        let mut state = [states0[i]];
        let item = ctr256_encrypt(&data[at..end], &key, &mut iv, &mut state).unwrap();
        assert_eq!(out[at..end], item);
        assert_eq!(ivs[16 * i..16 * i + 16], iv);
        assert_eq!(states[i], state[0]);
        at = end;
    }
    assert_eq!(out[at..], data[at..]);
}

#[test]
fn batch_decryption_gives_the_data_back() {
    let key = [0x17u8; 32];
    let data: Vec<u8> = (0..90).collect();
    let lens = sizes(&[40, 45]);
    let mut ivs = vec![3u8; 32];
    let mut states = vec![1u8, 0];
    let out = ctr256_encrypt_batch(&data, &lens, &key, &mut ivs, &mut states).unwrap();
    assert_ne!(out, data);
    let mut ivs2 = vec![3u8; 32];
    let mut states2 = vec![1u8, 0];
    assert_eq!(
        ctr256_decrypt_batch(&out, &lens, &key, &mut ivs2, &mut states2).unwrap(),
        data
    );
    assert_eq!((ivs2, states2), (ivs, states));
}

#[test]
fn batch_of_no_items_is_empty() {
    let mut ivs = vec![5u8; 3];
    assert_eq!(
        ctr256_encrypt_batch(b"left out", b"odd", &[0u8; 32], &mut ivs, &mut []),
        Ok(vec![])
    );
    assert_eq!(ivs, vec![5u8; 3]);
}

#[test]
fn batch_refusals_come_in_order_and_change_nothing() {
    let mut ivs = vec![1u8; 31];
    let mut states = vec![2u8; 2];
    assert_eq!(
        ctr256_encrypt_batch(b"", b"", &[0u8; 5], &mut ivs, &mut []),
        Err(CryptoError::KeyLength)
    );
    assert_eq!(
        ctr256_encrypt_batch(b"", b"", &[0u8; 5], &mut ivs, &mut states),
        Err(CryptoError::KeyLength)
    );
    assert_eq!(
        ctr256_encrypt_batch(b"", b"", &[0u8; 32], &mut ivs, &mut states),
        Err(CryptoError::BatchIvsLength)
    );
    ivs.push(1);
    assert_eq!(
        ctr256_decrypt_batch(b"", &sizes(&[1]), &[0u8; 32], &mut ivs, &mut states),
        Err(CryptoError::BatchSizesLength)
    );
    assert_eq!(
        ctr256_decrypt_batch(b"abc", &sizes(&[2, 2]), &[0u8; 32], &mut ivs, &mut states),
        Err(CryptoError::BatchDataTooShort)
    );
    assert!(ctr256_encrypt_batch(
        b"abc",
        &sizes(&[u32::MAX, u32::MAX]),
        &[0u8; 32],
        &mut ivs,
        &mut states
    )
    .is_err());
    assert_eq!((ivs, states), (vec![1u8; 32], vec![2u8; 2]));
}
