use harukacrypto::bytes::{
    append_u32, append_u64, block_at, low_u32, read_u32, read_u64, same_bytes, to_i32, to_i64,
    to_u32, to_u64, write_block, xor_block,
};

#[test]
fn blocks_are_read_combined_and_written() {
    let data: Vec<u8> = (0..20u8).collect();
    let block = block_at(&data, 3);
    assert_eq!(block[..], data[3..19]);
    assert_eq!(xor_block(&block, &block), [0u8; 16]);
    assert_eq!(xor_block(&[0xf0u8; 16], &[0x3cu8; 16]), [0xccu8; 16]);
    let mut out = vec![9u8; 18];
    write_block(&mut out, 1, &block);
    assert_eq!(out[0], 9);
    assert_eq!(out[1..17], block);
    assert_eq!(out[17], 9);
}

#[test]
fn byte_strings_are_the_same_or_not() {
    assert!(same_bytes(b"abc", b"abc"));
    assert!(!same_bytes(b"abc", b"abd"));
    assert!(!same_bytes(b"abc", b"ab"));
    assert!(same_bytes(b"", b""));
}

#[test]
fn numbers_go_through_little_endian_bytes() {
    let mut v = vec![1u8];
    append_u64(&mut v, 0x0102030405060708);
    append_u32(&mut v, 0xa0b0c0d0);
    assert_eq!(v, [1, 8, 7, 6, 5, 4, 3, 2, 1, 0xd0, 0xc0, 0xb0, 0xa0]);
    assert_eq!(read_u64(&v, 1), 0x0102030405060708);
    assert_eq!(read_u32(&v, 9), 0xa0b0c0d0);
}

#[test]
fn signs_are_twos_complement() {
    for v in [0i64, 1, -1, i64::MAX, i64::MIN] {
        assert_eq!(to_i64(to_u64(v)), v);
    }
    for v in [0i32, 1, -1, i32::MAX, i32::MIN] {
        assert_eq!(to_i32(to_u32(v)), v);
    }
    assert_eq!(to_u64(-2), 0xffff_ffff_ffff_fffe);
    assert_eq!(to_u32(-2), 0xffff_fffe);
    assert_eq!(low_u32(5), 5);
}
