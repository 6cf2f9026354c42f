//! AES-256 in IGE mode.
use vstd::prelude::*;

use crate::bytes;
use crate::error::CryptoError;
use crate::primitives;

verus! {

/// Encrypts the whole blocks of `data`, where `c` and `p` are the cipher and the plain block
/// before it: each block goes through AES combined with the cipher block before it, and comes
/// out combined with the plain block before it. Bytes behind the last whole block stay.
pub open spec fn ige_encrypted_from(key: Seq<u8>, c: Seq<u8>, p: Seq<u8>, data: Seq<u8>) -> Seq<u8>
    decreases data.len(),
{
    if data.len() < 16 {
        data
    } else {
        let plain = data.take(16);
        let cipher = ige_cipher_block(key, c, p, plain);
        cipher + ige_encrypted_from(key, cipher, plain, data.skip(16))
    }
}

/// The cipher block of `plain`.
pub open spec fn ige_cipher_block(key: Seq<u8>, c: Seq<u8>, p: Seq<u8>, plain: Seq<u8>) -> Seq<u8> {
    let block = primitives::aes256_encrypted(key, bytes::xor_bytes(plain, c));
    Seq::new(16, |j: int| block[j] ^ p[j])
}

/// Decrypts the whole blocks of `data`, where `c` and `p` are the cipher and the plain block
/// before it. Bytes behind the last whole block stay.
pub open spec fn ige_decrypted_from(key: Seq<u8>, c: Seq<u8>, p: Seq<u8>, data: Seq<u8>) -> Seq<u8>
    decreases data.len(),
{
    if data.len() < 16 {
        data
    } else {
        let cipher = data.take(16);
        let plain = ige_plain_block(key, c, p, cipher);
        plain + ige_decrypted_from(key, cipher, plain, data.skip(16))
    }
}

/// The plain block of `cipher`.
pub open spec fn ige_plain_block(key: Seq<u8>, c: Seq<u8>, p: Seq<u8>, cipher: Seq<u8>) -> Seq<u8> {
    let block = primitives::aes256_decrypted(key, bytes::xor_bytes(cipher, p));
    Seq::new(16, |j: int| block[j] ^ c[j])
}

/// `data` encrypted. The first half of `iv` stands for the cipher block before the first, the
/// second half for the plain block before the first.
pub open spec fn ige_encrypted(key: Seq<u8>, iv: Seq<u8>, data: Seq<u8>) -> Seq<u8> {
    ige_encrypted_from(key, iv.subrange(0, 16), iv.subrange(16, 32), data)
}

/// `data` decrypted, with `iv` as in encryption.
pub open spec fn ige_decrypted(key: Seq<u8>, iv: Seq<u8>, data: Seq<u8>) -> Seq<u8> {
    ige_decrypted_from(key, iv.subrange(0, 16), iv.subrange(16, 32), data)
}

/// Encryption keeps the length.
pub proof fn law_encryption_keeps_len(key: Seq<u8>, c: Seq<u8>, p: Seq<u8>, data: Seq<u8>)
    ensures
        ige_encrypted_from(key, c, p, data).len() == data.len(),
    decreases data.len(),
{
    if data.len() >= 16 {
        let plain = data.take(16);
        law_encryption_keeps_len(key, ige_cipher_block(key, c, p, plain), plain, data.skip(16));
    }
}

/// Decryption keeps the length.
pub proof fn law_decryption_keeps_len(key: Seq<u8>, c: Seq<u8>, p: Seq<u8>, data: Seq<u8>)
    ensures
        ige_decrypted_from(key, c, p, data).len() == data.len(),
    decreases data.len(),
{
    if data.len() >= 16 {
        let cipher = data.take(16);
        law_decryption_keeps_len(key, cipher, ige_plain_block(key, c, p, cipher), data.skip(16));
    }
}

/// AES gives back every block that it is fed while `data` is encrypted.
pub open spec fn encryption_recovers(key: Seq<u8>, c: Seq<u8>, p: Seq<u8>, data: Seq<u8>) -> bool
    decreases data.len(),
{
    data.len() >= 16 ==> {
        let plain = data.take(16);
        let fed = bytes::xor_bytes(plain, c);
        &&& primitives::aes256_encrypted(key, fed).len() == 16
        &&& primitives::aes256_decrypted(key, primitives::aes256_encrypted(key, fed)) == fed
        &&& encryption_recovers(key, ige_cipher_block(key, c, p, plain), plain, data.skip(16))
    }
}

/// AES gives back every block that it is fed while `data` is decrypted.
pub open spec fn decryption_recovers(key: Seq<u8>, c: Seq<u8>, p: Seq<u8>, data: Seq<u8>) -> bool
    decreases data.len(),
{
    data.len() >= 16 ==> {
        let cipher = data.take(16);
        let fed = bytes::xor_bytes(cipher, p);
        &&& primitives::aes256_decrypted(key, fed).len() == 16
        &&& primitives::aes256_encrypted(key, primitives::aes256_decrypted(key, fed)) == fed
        &&& decryption_recovers(key, cipher, ige_plain_block(key, c, p, cipher), data.skip(16))
    }
}

/// Encryption keeps the length, and decryption turns the encrypted data back into the data,
/// wherever AES turns its blocks back.
pub proof fn law_decryption_inverts_encryption(key: Seq<u8>, c: Seq<u8>, p: Seq<u8>, data: Seq<u8>)
    requires
        c.len() == 16,
        p.len() == 16,
        encryption_recovers(key, c, p, data),
    ensures
        ige_encrypted_from(key, c, p, data).len() == data.len(),
        ige_decrypted_from(key, c, p, ige_encrypted_from(key, c, p, data)) == data,
    decreases data.len(),
{
    if data.len() >= 16 {
        let plain = data.take(16);
        let fed = bytes::xor_bytes(plain, c);
        let raw = primitives::aes256_encrypted(key, fed);
        let cipher = ige_cipher_block(key, c, p, plain);
        let rest = ige_encrypted_from(key, cipher, plain, data.skip(16));
        law_decryption_inverts_encryption(key, cipher, plain, data.skip(16));
        let all = ige_encrypted_from(key, c, p, data);
        assert(all.take(16) =~= cipher);
        assert(all.skip(16) =~= rest);
        bytes::lemma_xor_twice(raw, p);
        bytes::lemma_xor_twice(plain, c);
        assert(cipher =~= bytes::xor_bytes(raw, p));
        assert(ige_plain_block(key, c, p, cipher) =~= bytes::xor_bytes(fed, c));
        assert(data =~= plain + data.skip(16));
    }
}

/// Decryption keeps the length, and encryption turns the decrypted data back into the data,
/// wherever AES turns its blocks back.
pub proof fn law_encryption_inverts_decryption(key: Seq<u8>, c: Seq<u8>, p: Seq<u8>, data: Seq<u8>)
    requires
        c.len() == 16,
        p.len() == 16,
        decryption_recovers(key, c, p, data),
    ensures
        ige_decrypted_from(key, c, p, data).len() == data.len(),
        ige_encrypted_from(key, c, p, ige_decrypted_from(key, c, p, data)) == data,
    decreases data.len(),
{
    if data.len() >= 16 {
        let cipher = data.take(16);
        let fed = bytes::xor_bytes(cipher, p);
        let raw = primitives::aes256_decrypted(key, fed);
        let plain = ige_plain_block(key, c, p, cipher);
        let rest = ige_decrypted_from(key, cipher, plain, data.skip(16));
        law_encryption_inverts_decryption(key, cipher, plain, data.skip(16));
        let all = ige_decrypted_from(key, c, p, data);
        assert(all.take(16) =~= plain);
        assert(all.skip(16) =~= rest);
        bytes::lemma_xor_twice(raw, c);
        bytes::lemma_xor_twice(cipher, p);
        assert(plain =~= bytes::xor_bytes(raw, c));
        assert(ige_cipher_block(key, c, p, plain) =~= bytes::xor_bytes(fed, p));
        assert(data =~= cipher + data.skip(16));
    }
}

/// Block `i` of `data`.
pub open spec fn block_of(data: Seq<u8>, i: int) -> Seq<u8> {
    data.subrange(16 * i, 16 * i + 16)
}

/// The block before block `i` of `data`, where `first` stands before the first.
pub open spec fn block_before(first: Seq<u8>, data: Seq<u8>, i: int) -> Seq<u8> {
    if i == 0 {
        first
    } else {
        block_of(data, i - 1)
    }
}

/// The bytes of `data` behind its last whole block.
pub open spec fn tail_of(data: Seq<u8>) -> Seq<u8> {
    data.skip((data.len() / 16 * 16) as int)
}

/// The initialisation vector that goes on behind a last cipher and a last plain block.
pub open spec fn chain_iv(cipher: Seq<u8>, plain: Seq<u8>) -> Seq<u8> {
    cipher.skip(cipher.len() - 16) + plain.skip(plain.len() - 16)
}

/// `out` is `data` encrypted block by block, with the bytes behind the last whole block kept.
pub open spec fn encrypted_by_block(key: Seq<u8>, iv: Seq<u8>, data: Seq<u8>, out: Seq<u8>) -> bool {
    &&& out.len() == data.len()
    &&& forall|i: int|
        0 <= i < data.len() / 16 ==> #[trigger] block_of(out, i) == ige_cipher_block(
            key,
            block_before(iv.subrange(0, 16), out, i),
            block_before(iv.subrange(16, 32), data, i),
            block_of(data, i),
        )
    &&& tail_of(out) == tail_of(data)
}

/// Whatever follows whole blocks `data`, encrypted to `out`, can be encrypted on its own, with the
/// last cipher and the last plain block as the vector.
pub open spec fn encryption_resumes(key: Seq<u8>, iv: Seq<u8>, data: Seq<u8>, out: Seq<u8>) -> bool {
    data.len() >= 16 && data.len() % 16 == 0 ==> forall|more: Seq<u8>| #[trigger]
        ige_encrypted(key, iv, data + more) == out + ige_encrypted(key, chain_iv(out, data), more)
}

/// Block by block: the cipher block `i` comes from the plain block `i` and the two blocks
/// before it.
pub proof fn law_encryption_block(key: Seq<u8>, c: Seq<u8>, p: Seq<u8>, data: Seq<u8>, i: int)
    requires
        c.len() == 16,
        p.len() == 16,
        0 <= i < data.len() / 16,
    ensures
        ({
            let all = ige_encrypted_from(key, c, p, data);
            block_of(all, i) == ige_cipher_block(
                key,
                block_before(c, all, i),
                block_before(p, data, i),
                block_of(data, i),
            )
        }),
    decreases i,
{
    let first = data.take(16);
    let out = ige_cipher_block(key, c, p, first);
    let all = ige_encrypted_from(key, c, p, data);
    let rest = data.skip(16);
    let rest_out = ige_encrypted_from(key, out, first, rest);
    law_encryption_keeps_len(key, out, first, rest);
    assert(all =~= out + rest_out);
    if i == 0 {
        assert(block_of(all, 0) =~= out);
        assert(block_of(data, 0) =~= first);
    } else {
        law_encryption_block(key, out, first, rest, i - 1);
        assert(block_of(all, i) =~= block_of(rest_out, i - 1));
        assert(block_of(data, i) =~= block_of(rest, i - 1));
        if i == 1 {
            assert(block_of(all, 0) =~= out);
            assert(block_of(data, 0) =~= first);
        } else {
            assert(block_of(all, i - 1) =~= block_of(rest_out, i - 2));
            assert(block_of(data, i - 1) =~= block_of(rest, i - 2));
        }
    }
}

/// The bytes behind the last whole block stay as they are.
pub proof fn law_encryption_keeps_tail(key: Seq<u8>, c: Seq<u8>, p: Seq<u8>, data: Seq<u8>)
    requires
        c.len() == 16,
        p.len() == 16,
    ensures
        tail_of(ige_encrypted_from(key, c, p, data)) == tail_of(data),
    decreases data.len(),
{
    if data.len() >= 16 {
        let first = data.take(16);
        let out = ige_cipher_block(key, c, p, first);
        let all = ige_encrypted_from(key, c, p, data);
        let rest = data.skip(16);
        let rest_out = ige_encrypted_from(key, out, first, rest);
        law_encryption_keeps_len(key, out, first, rest);
        assert(all =~= out + rest_out);
        law_encryption_keeps_tail(key, out, first, rest);
        assert(tail_of(all) =~= tail_of(rest_out));
        assert(tail_of(data) =~= tail_of(rest));
    }
}

/// A chain can be resumed behind whole blocks, with the last cipher and the last plain block as
/// the vector.
pub proof fn law_encryption_resumes(key: Seq<u8>, c: Seq<u8>, p: Seq<u8>, a: Seq<u8>, b: Seq<u8>)
    requires
        c.len() == 16,
        p.len() == 16,
        a.len() >= 16,
        a.len() % 16 == 0,
    ensures
        ({
            let all = ige_encrypted_from(key, c, p, a);
            ige_encrypted_from(key, c, p, a + b) == all + ige_encrypted(key, chain_iv(all, a), b)
        }),
    decreases a.len(),
{
    let data = a;
    let first = data.take(16);
    let out = ige_cipher_block(key, c, p, first);
    let all = ige_encrypted_from(key, c, p, data);
    let rest = data.skip(16);
    let rest_out = ige_encrypted_from(key, out, first, rest);
    law_encryption_keeps_len(key, out, first, rest);
    assert(all =~= out + rest_out);
    assert((a + b).take(16) =~= first);
    assert((a + b).skip(16) =~= rest + b);
    if a.len() == 16 {
        assert(rest + b =~= b);
        assert(all =~= out);
        assert(chain_iv(all, a).subrange(0, 16) =~= out);
        assert(chain_iv(all, a).subrange(16, 32) =~= first);
    } else {
        law_encryption_resumes(key, out, first, rest, b);
        assert(chain_iv(all, a) =~= chain_iv(rest_out, rest));
        let more = ige_encrypted(key, chain_iv(all, a), b);
        assert(out + (rest_out + more) =~= (out + rest_out) + more);
    }
}

/// `out` is `data` decrypted block by block, with the bytes behind the last whole block kept.
pub open spec fn decrypted_by_block(key: Seq<u8>, iv: Seq<u8>, data: Seq<u8>, out: Seq<u8>) -> bool {
    &&& out.len() == data.len()
    &&& forall|i: int|
        0 <= i < data.len() / 16 ==> #[trigger] block_of(out, i) == ige_plain_block(
            key,
            block_before(iv.subrange(0, 16), data, i),
            block_before(iv.subrange(16, 32), out, i),
            block_of(data, i),
        )
    &&& tail_of(out) == tail_of(data)
}

/// Whatever follows whole blocks `data`, decrypted to `out`, can be decrypted on its own, with the
/// last cipher and the last plain block as the vector.
pub open spec fn decryption_resumes(key: Seq<u8>, iv: Seq<u8>, data: Seq<u8>, out: Seq<u8>) -> bool {
    data.len() >= 16 && data.len() % 16 == 0 ==> forall|more: Seq<u8>| #[trigger]
        ige_decrypted(key, iv, data + more) == out + ige_decrypted(key, chain_iv(data, out), more)
}

/// Block by block: the plain block `i` comes from the cipher block `i` and the two blocks
/// before it.
pub proof fn law_decryption_block(key: Seq<u8>, c: Seq<u8>, p: Seq<u8>, data: Seq<u8>, i: int)
    requires
        c.len() == 16,
        p.len() == 16,
        0 <= i < data.len() / 16,
    ensures
        ({
            let all = ige_decrypted_from(key, c, p, data);
            block_of(all, i) == ige_plain_block(
                key,
                block_before(c, data, i),
                block_before(p, all, i),
                block_of(data, i),
            )
        }),
    decreases i,
{
    let first = data.take(16);
    let out = ige_plain_block(key, c, p, first);
    let all = ige_decrypted_from(key, c, p, data);
    let rest = data.skip(16);
    let rest_out = ige_decrypted_from(key, first, out, rest);
    law_decryption_keeps_len(key, first, out, rest);
    assert(all =~= out + rest_out);
    if i == 0 {
        assert(block_of(all, 0) =~= out);
        assert(block_of(data, 0) =~= first);
    } else {
        law_decryption_block(key, first, out, rest, i - 1);
        assert(block_of(all, i) =~= block_of(rest_out, i - 1));
        assert(block_of(data, i) =~= block_of(rest, i - 1));
        if i == 1 {
            assert(block_of(all, 0) =~= out);
            assert(block_of(data, 0) =~= first);
        } else {
            assert(block_of(all, i - 1) =~= block_of(rest_out, i - 2));
            assert(block_of(data, i - 1) =~= block_of(rest, i - 2));
        }
    }
}

/// The bytes behind the last whole block stay as they are.
pub proof fn law_decryption_keeps_tail(key: Seq<u8>, c: Seq<u8>, p: Seq<u8>, data: Seq<u8>)
    requires
        c.len() == 16,
        p.len() == 16,
    ensures
        tail_of(ige_decrypted_from(key, c, p, data)) == tail_of(data),
    decreases data.len(),
{
    if data.len() >= 16 {
        let first = data.take(16);
        let out = ige_plain_block(key, c, p, first);
        let all = ige_decrypted_from(key, c, p, data);
        let rest = data.skip(16);
        let rest_out = ige_decrypted_from(key, first, out, rest);
        law_decryption_keeps_len(key, first, out, rest);
        assert(all =~= out + rest_out);
        law_decryption_keeps_tail(key, first, out, rest);
        assert(tail_of(all) =~= tail_of(rest_out));
        assert(tail_of(data) =~= tail_of(rest));
    }
}

/// A chain can be resumed behind whole blocks, with the last cipher and the last plain block as
/// the vector.
pub proof fn law_decryption_resumes(key: Seq<u8>, c: Seq<u8>, p: Seq<u8>, a: Seq<u8>, b: Seq<u8>)
    requires
        c.len() == 16,
        p.len() == 16,
        a.len() >= 16,
        a.len() % 16 == 0,
    ensures
        ({
            let all = ige_decrypted_from(key, c, p, a);
            ige_decrypted_from(key, c, p, a + b) == all + ige_decrypted(key, chain_iv(a, all), b)
        }),
    decreases a.len(),
{
    let data = a;
    let first = data.take(16);
    let out = ige_plain_block(key, c, p, first);
    let all = ige_decrypted_from(key, c, p, data);
    let rest = data.skip(16);
    let rest_out = ige_decrypted_from(key, first, out, rest);
    law_decryption_keeps_len(key, first, out, rest);
    assert(all =~= out + rest_out);
    assert((a + b).take(16) =~= first);
    assert((a + b).skip(16) =~= rest + b);
    if a.len() == 16 {
        assert(rest + b =~= b);
        assert(all =~= out);
        assert(chain_iv(a, all).subrange(0, 16) =~= first);
        assert(chain_iv(a, all).subrange(16, 32) =~= out);
    } else {
        law_decryption_resumes(key, first, out, rest, b);
        assert(chain_iv(a, all) =~= chain_iv(rest, rest_out));
        let more = ige_decrypted(key, chain_iv(a, all), b);
        assert(out + (rest_out + more) =~= (out + rest_out) + more);
    }
}

/// Byte by byte, on AES itself: where the encrypted data comes from.
pub proof fn law_ige_encrypted_byte(key: Seq<u8>, iv: Seq<u8>, data: Seq<u8>, k: int)
    requires
        iv.len() >= 32,
        0 <= k < data.len(),
    ensures
        ige_encrypted(key, iv, data).len() == data.len(),
        k >= data.len() - data.len() % 16 ==> ige_encrypted(key, iv, data)[k] == data[k],
        k < data.len() - data.len() % 16 ==> ({
            let out = ige_encrypted(key, iv, data);
            out[k] == primitives::aes256_encrypted(
                key,
                Seq::new(
                    16,
                    |t: int|
                        data[k - k % 16 + t] ^ (if k < 16 {
                            iv[t]
                        } else {
                            out[k - k % 16 - 16 + t]
                        }),
                ),
            )[k % 16] ^ (if k < 16 {
                iv[16 + k]
            } else {
                data[k - 16]
            })
        }),
{
    let out = ige_encrypted(key, iv, data);
    let c = iv.subrange(0, 16);
    let p = iv.subrange(16, 32);
    let whole = data.len() / 16 * 16;
    law_encryption_keeps_len(key, c, p, data);
    law_encryption_keeps_tail(key, c, p, data);
    assert(whole == data.len() - data.len() % 16);
    if k >= whole {
        assert(tail_of(out)[k - whole] == out[k]);
        assert(tail_of(data)[k - whole] == data[k]);
    } else {
        let i = k / 16;
        assert(16 * i == k - k % 16);
        law_encryption_block(key, c, p, data, i);
        assert(block_of(out, i)[k % 16] == out[k]);
        let chain = block_before(c, out, i);
        let fed = Seq::new(
            16,
            |t: int|
                data[k - k % 16 + t] ^ (if k < 16 {
                    iv[t]
                } else {
                    out[k - k % 16 - 16 + t]
                }),
        );
        assert(fed =~= bytes::xor_bytes(block_of(data, i), chain));
    }
}

/// Those bytes fix the encrypted data: nothing else has them.
pub proof fn law_ige_encrypted_only(key: Seq<u8>, iv: Seq<u8>, data: Seq<u8>, out: Seq<u8>)
    requires
        iv.len() >= 32,
        out.len() == data.len(),
    ensures
        ({
            &&& forall|k: int|
                data.len() - data.len() % 16 <= k < data.len() ==> #[trigger] out[k] == data[k]
            &&& forall|k: int|
                0 <= k < data.len() - data.len() % 16 ==> #[trigger] out[k]
                    == primitives::aes256_encrypted(
                        key,
                        Seq::new(
                            16,
                            |t: int|
                                data[k - k % 16 + t] ^ (if k < 16 {
                                    iv[t]
                                } else {
                                    out[k - k % 16 - 16 + t]
                                }),
                        ),
                    )[k % 16] ^ (if k < 16 {
                        iv[16 + k]
                    } else {
                        data[k - 16]
                    })
        }) ==> out == ige_encrypted(key, iv, data),
{
    let whole = data.len() - data.len() % 16;
    if (forall|k: int| whole <= k < data.len() ==> #[trigger] out[k] == data[k]) && (forall|k: int|
        0 <= k < whole ==> #[trigger] out[k] == primitives::aes256_encrypted(
                key,
                Seq::new(
                    16,
                    |t: int|
                        data[k - k % 16 + t] ^ (if k < 16 {
                            iv[t]
                        } else {
                            out[k - k % 16 - 16 + t]
                        }),
                ),
            )[k % 16] ^ (if k < 16 {
                iv[16 + k]
            } else {
                data[k - 16]
            })) {
        let right = ige_encrypted(key, iv, data);
        law_encryption_keeps_len(key, iv.subrange(0, 16), iv.subrange(16, 32), data);
        lemma_encrypted_only(key, iv, data, out, whole);
        assert forall|k: int| 0 <= k < data.len() implies out[k] == right[k] by {
            law_ige_encrypted_byte(key, iv, data, k);
        }
        assert(out =~= right);
    }
}

proof fn lemma_encrypted_only(key: Seq<u8>, iv: Seq<u8>, data: Seq<u8>, out: Seq<u8>, n: int)
    requires
        iv.len() >= 32,
        out.len() == data.len(),
        0 <= n <= data.len() - data.len() % 16,
        forall|k: int|
            0 <= k < data.len() - data.len() % 16 ==> #[trigger] out[k]
                == primitives::aes256_encrypted(
                    key,
                    Seq::new(
                        16,
                        |t: int|
                            data[k - k % 16 + t] ^ (if k < 16 {
                                iv[t]
                            } else {
                                out[k - k % 16 - 16 + t]
                            }),
                    ),
                )[k % 16] ^ (if k < 16 {
                    iv[16 + k]
                } else {
                    data[k - 16]
                }),
    ensures
        forall|k: int| 0 <= k < n ==> out[k] == #[trigger] ige_encrypted(key, iv, data)[k],
    decreases n,
{
    let right = ige_encrypted(key, iv, data);
    if n > 0 {
        let k = n - 1;
        lemma_encrypted_only(key, iv, data, out, k);
        law_ige_encrypted_byte(key, iv, data, k);
        let fed_right = Seq::new(
            16,
            |t: int|
                data[k - k % 16 + t] ^ (if k < 16 {
                    iv[t]
                } else {
                    right[k - k % 16 - 16 + t]
                }),
        );
        let fed_out = Seq::new(
            16,
            |t: int|
                data[k - k % 16 + t] ^ (if k < 16 {
                    iv[t]
                } else {
                    out[k - k % 16 - 16 + t]
                }),
        );
        assert(fed_right =~= fed_out) by {
            if k >= 16 {
                assert forall|t: int| 0 <= t < 16 implies #[trigger] fed_right[t] == fed_out[t] by {
                    assert(right[k - k % 16 - 16 + t] == out[k - k % 16 - 16 + t]);
                }
            }
        }
        assert(out[k] == right[k]);
    }
}

/// Byte by byte, on AES itself: where the decrypted data comes from.
pub proof fn law_ige_decrypted_byte(key: Seq<u8>, iv: Seq<u8>, data: Seq<u8>, k: int)
    requires
        iv.len() >= 32,
        0 <= k < data.len(),
    ensures
        ige_decrypted(key, iv, data).len() == data.len(),
        k >= data.len() - data.len() % 16 ==> ige_decrypted(key, iv, data)[k] == data[k],
        k < data.len() - data.len() % 16 ==> ({
            let out = ige_decrypted(key, iv, data);
            out[k] == primitives::aes256_decrypted(
                key,
                Seq::new(
                    16,
                    |t: int|
                        data[k - k % 16 + t] ^ (if k < 16 {
                            iv[16 + t]
                        } else {
                            out[k - k % 16 - 16 + t]
                        }),
                ),
            )[k % 16] ^ (if k < 16 {
                iv[k]
            } else {
                data[k - 16]
            })
        }),
{
    let out = ige_decrypted(key, iv, data);
    let c = iv.subrange(0, 16);
    let p = iv.subrange(16, 32);
    let whole = data.len() / 16 * 16;
    law_decryption_keeps_len(key, c, p, data);
    law_decryption_keeps_tail(key, c, p, data);
    assert(whole == data.len() - data.len() % 16);
    if k >= whole {
        assert(tail_of(out)[k - whole] == out[k]);
        assert(tail_of(data)[k - whole] == data[k]);
    } else {
        let i = k / 16;
        assert(16 * i == k - k % 16);
        law_decryption_block(key, c, p, data, i);
        assert(block_of(out, i)[k % 16] == out[k]);
        let chain = block_before(p, out, i);
        let fed = Seq::new(
            16,
            |t: int|
                data[k - k % 16 + t] ^ (if k < 16 {
                    iv[16 + t]
                } else {
                    out[k - k % 16 - 16 + t]
                }),
        );
        assert(fed =~= bytes::xor_bytes(block_of(data, i), chain));
    }
}

/// Those bytes fix the decrypted data: nothing else has them.
pub proof fn law_ige_decrypted_only(key: Seq<u8>, iv: Seq<u8>, data: Seq<u8>, out: Seq<u8>)
    requires
        iv.len() >= 32,
        out.len() == data.len(),
    ensures
        ({
            &&& forall|k: int|
                data.len() - data.len() % 16 <= k < data.len() ==> #[trigger] out[k] == data[k]
            &&& forall|k: int|
                0 <= k < data.len() - data.len() % 16 ==> #[trigger] out[k]
                    == primitives::aes256_decrypted(
                        key,
                        Seq::new(
                            16,
                            |t: int|
                                data[k - k % 16 + t] ^ (if k < 16 {
                                    iv[16 + t]
                                } else {
                                    out[k - k % 16 - 16 + t]
                                }),
                        ),
                    )[k % 16] ^ (if k < 16 {
                        iv[k]
                    } else {
                        data[k - 16]
                    })
        }) ==> out == ige_decrypted(key, iv, data),
{
    let whole = data.len() - data.len() % 16;
    if (forall|k: int| whole <= k < data.len() ==> #[trigger] out[k] == data[k]) && (forall|k: int|
        0 <= k < whole ==> #[trigger] out[k] == primitives::aes256_decrypted(
                key,
                Seq::new(
                    16,
                    |t: int|
                        data[k - k % 16 + t] ^ (if k < 16 {
                            iv[16 + t]
                        } else {
                            out[k - k % 16 - 16 + t]
                        }),
                ),
            )[k % 16] ^ (if k < 16 {
                iv[k]
            } else {
                data[k - 16]
            })) {
        let right = ige_decrypted(key, iv, data);
        law_decryption_keeps_len(key, iv.subrange(0, 16), iv.subrange(16, 32), data);
        lemma_decrypted_only(key, iv, data, out, whole);
        assert forall|k: int| 0 <= k < data.len() implies out[k] == right[k] by {
            law_ige_decrypted_byte(key, iv, data, k);
        }
        assert(out =~= right);
    }
}

proof fn lemma_decrypted_only(key: Seq<u8>, iv: Seq<u8>, data: Seq<u8>, out: Seq<u8>, n: int)
    requires
        iv.len() >= 32,
        out.len() == data.len(),
        0 <= n <= data.len() - data.len() % 16,
        forall|k: int|
            0 <= k < data.len() - data.len() % 16 ==> #[trigger] out[k]
                == primitives::aes256_decrypted(
                    key,
                    Seq::new(
                        16,
                        |t: int|
                            data[k - k % 16 + t] ^ (if k < 16 {
                                iv[16 + t]
                            } else {
                                out[k - k % 16 - 16 + t]
                            }),
                    ),
                )[k % 16] ^ (if k < 16 {
                    iv[k]
                } else {
                    data[k - 16]
                }),
    ensures
        forall|k: int| 0 <= k < n ==> out[k] == #[trigger] ige_decrypted(key, iv, data)[k],
    decreases n,
{
    let right = ige_decrypted(key, iv, data);
    if n > 0 {
        let k = n - 1;
        lemma_decrypted_only(key, iv, data, out, k);
        law_ige_decrypted_byte(key, iv, data, k);
        let fed_right = Seq::new(
            16,
            |t: int|
                data[k - k % 16 + t] ^ (if k < 16 {
                    iv[16 + t]
                } else {
                    right[k - k % 16 - 16 + t]
                }),
        );
        let fed_out = Seq::new(
            16,
            |t: int|
                data[k - k % 16 + t] ^ (if k < 16 {
                    iv[16 + t]
                } else {
                    out[k - k % 16 - 16 + t]
                }),
        );
        assert(fed_right =~= fed_out) by {
            if k >= 16 {
                assert forall|t: int| 0 <= t < 16 implies #[trigger] fed_right[t] == fed_out[t] by {
                    assert(right[k - k % 16 - 16 + t] == out[k - k % 16 - 16 + t]);
                }
            }
        }
        assert(out[k] == right[k]);
    }
}

/// The only block that AES encrypts to `block` is the one that it decrypts `block` to.
pub open spec fn decrypts_uniquely(key: Seq<u8>, block: Seq<u8>) -> bool {
    forall|b: Seq<u8>|
        b.len() == 16 && #[trigger] primitives::encrypts_to(key, b, block) ==> b
            == primitives::aes256_decrypted(key, block)
}

/// While `data` is decrypted, each block that AES gives is the only one that encrypts to the
/// block it was fed.
pub open spec fn decryption_unique(key: Seq<u8>, c: Seq<u8>, p: Seq<u8>, data: Seq<u8>) -> bool
    decreases data.len(),
{
    data.len() >= 16 ==> {
        let cipher = data.take(16);
        let fed = bytes::xor_bytes(cipher, p);
        &&& decrypts_uniquely(key, fed)
        &&& decryption_unique(key, cipher, ige_plain_block(key, c, p, cipher), data.skip(16))
    }
}

/// Where AES decrypts every block uniquely, it does so all through a decryption.
pub proof fn law_decryption_unique(key: Seq<u8>, c: Seq<u8>, p: Seq<u8>, data: Seq<u8>)
    ensures
        (forall|block: Seq<u8>| block.len() == 16 ==> #[trigger] decrypts_uniquely(key, block))
            ==> decryption_unique(key, c, p, data),
    decreases data.len(),
{
    if data.len() >= 16 {
        let cipher = data.take(16);
        assert(bytes::xor_bytes(cipher, p).len() == 16);
        law_decryption_unique(key, cipher, ige_plain_block(key, c, p, cipher), data.skip(16));
    }
}

/// What was encrypted decrypts to what it was, wherever AES decrypts its blocks uniquely.
pub proof fn law_encrypted_decrypts(key: Seq<u8>, c: Seq<u8>, p: Seq<u8>, plain: Seq<u8>)
    requires
        c.len() == 16,
        p.len() == 16,
        decryption_unique(key, c, p, ige_encrypted_from(key, c, p, plain)),
    ensures
        ige_decrypted_from(key, c, p, ige_encrypted_from(key, c, p, plain)) == plain,
    decreases plain.len(),
{
    if plain.len() >= 16 {
        let first = plain.take(16);
        let asked = bytes::xor_bytes(first, c);
        let out = ige_cipher_block(key, c, p, first);
        let rest_out = ige_encrypted_from(key, out, first, plain.skip(16));
        let all = ige_encrypted_from(key, c, p, plain);
        let fed = bytes::xor_bytes(out, p);
        assert(all.take(16) =~= out);
        assert(all.skip(16) =~= rest_out);
        assert forall|j: int| 0 <= j < 16 implies primitives::aes256_encrypted(key, asked)[j]
            == fed[j] by {
            bytes::lemma_xor_byte_twice(primitives::aes256_encrypted(key, asked)[j], p[j]);
        }
        assert(primitives::encrypts_to(key, asked, fed));
        assert(primitives::aes256_decrypted(key, fed) == asked);
        bytes::lemma_xor_twice(first, c);
        assert(ige_plain_block(key, c, p, out) =~= bytes::xor_bytes(asked, c));
        law_encrypted_decrypts(key, out, first, plain.skip(16));
        assert(plain =~= first + plain.skip(16));
    }
}

/// Encrypts the whole blocks of `data` in place.
pub fn ige256_encrypt_slice(data: &mut [u8], key: &[u8], iv: &[u8])
    requires
        key@.len() == 32,
        32 <= iv@.len(),
    ensures
        final(data)@ == ige_encrypted(key@, iv@, old(data)@),
        ige_decrypted(key@, iv@, final(data)@) == old(data)@,
        encrypted_by_block(key@, iv@, old(data)@, final(data)@),
        encryption_resumes(key@, iv@, old(data)@, final(data)@),
        final(data)@.len() == old(data)@.len(),
        forall|k: int|
            old(data)@.len() - old(data)@.len() % 16 <= k < old(data)@.len()
                ==> #[trigger] final(data)@[k] == old(data)@[k],
        forall|k: int|
            0 <= k < old(data)@.len() - old(data)@.len() % 16 ==> #[trigger] final(data)@[k]
                == primitives::aes256_encrypted(
                    key@,
                    Seq::new(
                        16,
                        |t: int|
                            old(data)@[k - k % 16 + t] ^ (if k < 16 {
                                iv@[t]
                            } else {
                                final(data)@[k - k % 16 - 16 + t]
                            }),
                    ),
                )[k % 16] ^ (if k < 16 {
                    iv@[16 + k]
                } else {
                    old(data)@[k - 16]
                }),
{
    let ghost data0 = data@;
    let len: usize = data.len();
    let mut iv1: [u8; 16] = bytes::block_at(iv, 0);
    let mut iv2: [u8; 16] = bytes::block_at(iv, 16);
    let ghost c0 = iv1@;
    let ghost p0 = iv2@;
    let mut pos: usize = 0;
    assert(data0.skip(0) =~= data0);
    while len - pos >= 16
        invariant
            key@.len() == 32,
            pos <= len,
            len == data0.len(),
            data@.len() == len,
            data@.skip(pos as int) == data0.skip(pos as int),
            data@.take(pos as int) + ige_encrypted_from(key@, iv1@, iv2@, data0.skip(pos as int))
                == ige_encrypted_from(key@, c0, p0, data0),
            encryption_recovers(key@, iv1@, iv2@, data0.skip(pos as int)) ==> encryption_recovers(
                key@,
                c0,
                p0,
                data0,
            ),
        decreases len - pos,
    {
        let ghost before = data@;
        let ghost rest = data0.skip(pos as int);
        let plain: [u8; 16] = bytes::block_at(data, pos);
        let fed: [u8; 16] = bytes::xor_block(&plain, &iv1);
        let block: [u8; 16] = primitives::aes256_encrypt_block(key, &fed);
        let out: [u8; 16] = bytes::xor_block(&block, &iv2);
        bytes::write_block(data, pos, &out);
        proof {
            assert(plain@ =~= rest.take(16)) by {
                assert(plain@ =~= before.skip(pos as int).take(16));
            }
            assert(rest.skip(16) =~= data0.skip(pos + 16));
            assert(data@.skip(pos + 16) =~= before.skip(pos as int).skip(16));
            assert(data@.take(pos + 16) =~= before.take(pos as int) + out@);
            assert(out@ =~= ige_cipher_block(key@, iv1@, iv2@, plain@));
            let tail = ige_encrypted_from(key@, out@, plain@, rest.skip(16));
            assert((before.take(pos as int) + out@) + tail =~= before.take(pos as int) + (out@
                + tail));
        }
        iv1 = out;
        iv2 = plain;
        pos += 16;
    }
    proof {
        let rest = data0.skip(pos as int);
        assert(ige_encrypted_from(key@, iv1@, iv2@, rest) == rest);
        assert(data@ =~= data@.take(pos as int) + data@.skip(pos as int));
        law_decryption_inverts_encryption(key@, c0, p0, data0);
        assert forall|k: int|
            data0.len() - data0.len() % 16 <= k < data0.len() implies #[trigger] data@[k]
            == data0[k] by {
            law_ige_encrypted_byte(key@, iv@, data0, k);
        }
        assert forall|k: int| 0 <= k < data0.len() - data0.len() % 16 implies #[trigger] data@[k]
            == primitives::aes256_encrypted(
                key@,
                Seq::new(
                    16,
                    |t: int|
                        data0[k - k % 16 + t] ^ (if k < 16 {
                            iv@[t]
                        } else {
                            data@[k - k % 16 - 16 + t]
                        }),
                ),
            )[k % 16] ^ (if k < 16 {
                iv@[16 + k]
            } else {
                data0[k - 16]
            }) by {
            law_ige_encrypted_byte(key@, iv@, data0, k);
        }
        law_encryption_keeps_tail(key@, c0, p0, data0);
        assert forall|i: int| 0 <= i < data0.len() / 16 implies #[trigger] block_of(data@, i)
            == ige_cipher_block(
            key@,
            block_before(c0, data@, i),
            block_before(p0, data0, i),
            block_of(data0, i),
        ) by {
            law_encryption_block(key@, c0, p0, data0, i);
        }
        if data0.len() >= 16 && data0.len() % 16 == 0 {
            assert forall|more: Seq<u8>| #[trigger] ige_encrypted(key@, iv@, data0 + more) == data@
                + ige_encrypted(
                key@,
                chain_iv(data@, data0),
                more,
            ) by {
                law_encryption_resumes(key@, c0, p0, data0, more);
            }
        }
    }
}

/// Decrypts the whole blocks of `data` in place.
pub fn ige256_decrypt_slice(data: &mut [u8], key: &[u8], iv: &[u8])
    requires
        key@.len() == 32,
        32 <= iv@.len(),
    ensures
        final(data)@ == ige_decrypted(key@, iv@, old(data)@),
        ige_encrypted(key@, iv@, final(data)@) == old(data)@,
        decrypted_by_block(key@, iv@, old(data)@, final(data)@),
        decryption_resumes(key@, iv@, old(data)@, final(data)@),
        final(data)@.len() == old(data)@.len(),
        forall|k: int|
            old(data)@.len() - old(data)@.len() % 16 <= k < old(data)@.len()
                ==> #[trigger] final(data)@[k] == old(data)@[k],
        forall|k: int|
            0 <= k < old(data)@.len() - old(data)@.len() % 16 ==> #[trigger] final(data)@[k]
                == primitives::aes256_decrypted(
                    key@,
                    Seq::new(
                        16,
                        |t: int|
                            old(data)@[k - k % 16 + t] ^ (if k < 16 {
                                iv@[16 + t]
                            } else {
                                final(data)@[k - k % 16 - 16 + t]
                            }),
                    ),
                )[k % 16] ^ (if k < 16 {
                    iv@[k]
                } else {
                    old(data)@[k - 16]
                }),
        forall|plain: Seq<u8>|
            #[trigger] ige_encrypted(key@, iv@, plain) == old(data)@ ==> final(data)@ == plain,
{
    let ghost data0 = data@;
    let len: usize = data.len();
    let mut iv1: [u8; 16] = bytes::block_at(iv, 16);
    let mut iv2: [u8; 16] = bytes::block_at(iv, 0);
    let ghost c0 = iv2@;
    let ghost p0 = iv1@;
    let mut pos: usize = 0;
    assert(data0.skip(0) =~= data0);
    while len - pos >= 16
        invariant
            key@.len() == 32,
            pos <= len,
            len == data0.len(),
            data@.len() == len,
            data@.skip(pos as int) == data0.skip(pos as int),
            data@.take(pos as int) + ige_decrypted_from(key@, iv2@, iv1@, data0.skip(pos as int))
                == ige_decrypted_from(key@, c0, p0, data0),
            decryption_unique(key@, iv2@, iv1@, data0.skip(pos as int)) ==> decryption_unique(
                key@,
                c0,
                p0,
                data0,
            ),
            decryption_recovers(key@, iv2@, iv1@, data0.skip(pos as int)) ==> decryption_recovers(
                key@,
                c0,
                p0,
                data0,
            ),
        decreases len - pos,
    {
        let ghost before = data@;
        let ghost rest = data0.skip(pos as int);
        let cipher: [u8; 16] = bytes::block_at(data, pos);
        let fed: [u8; 16] = bytes::xor_block(&cipher, &iv1);
        let block: [u8; 16] = primitives::aes256_decrypt_block(key, &fed);
        let out: [u8; 16] = bytes::xor_block(&block, &iv2);
        bytes::write_block(data, pos, &out);
        proof {
            assert(cipher@ =~= rest.take(16)) by {
                assert(cipher@ =~= before.skip(pos as int).take(16));
            }
            assert(rest.skip(16) =~= data0.skip(pos + 16));
            assert(data@.skip(pos + 16) =~= before.skip(pos as int).skip(16));
            assert(data@.take(pos + 16) =~= before.take(pos as int) + out@);
            assert(out@ =~= ige_plain_block(key@, iv2@, iv1@, cipher@));
            assert(decrypts_uniquely(key@, fed@));
            let tail = ige_decrypted_from(key@, cipher@, out@, rest.skip(16));
            assert((before.take(pos as int) + out@) + tail =~= before.take(pos as int) + (out@
                + tail));
        }
        iv1 = out;
        iv2 = cipher;
        pos += 16;
    }
    proof {
        let rest = data0.skip(pos as int);
        assert(ige_decrypted_from(key@, iv2@, iv1@, rest) == rest);
        assert(data@ =~= data@.take(pos as int) + data@.skip(pos as int));
        law_encryption_inverts_decryption(key@, c0, p0, data0);
        assert forall|plain: Seq<u8>| #[trigger] ige_encrypted(key@, iv@, plain)
            == data0 implies data@ == plain by {
            law_encrypted_decrypts(key@, c0, p0, plain);
        }
        assert forall|k: int|
            data0.len() - data0.len() % 16 <= k < data0.len() implies #[trigger] data@[k]
            == data0[k] by {
            law_ige_decrypted_byte(key@, iv@, data0, k);
        }
        assert forall|k: int| 0 <= k < data0.len() - data0.len() % 16 implies #[trigger] data@[k]
            == primitives::aes256_decrypted(
                key@,
                Seq::new(
                    16,
                    |t: int|
                        data0[k - k % 16 + t] ^ (if k < 16 {
                            iv@[16 + t]
                        } else {
                            data@[k - k % 16 - 16 + t]
                        }),
                ),
            )[k % 16] ^ (if k < 16 {
                iv@[k]
            } else {
                data0[k - 16]
            }) by {
            law_ige_decrypted_byte(key@, iv@, data0, k);
        }
        law_decryption_keeps_tail(key@, c0, p0, data0);
        assert forall|i: int| 0 <= i < data0.len() / 16 implies #[trigger] block_of(data@, i)
            == ige_plain_block(
            key@,
            block_before(c0, data0, i),
            block_before(p0, data@, i),
            block_of(data0, i),
        ) by {
            law_decryption_block(key@, c0, p0, data0, i);
        }
        if data0.len() >= 16 && data0.len() % 16 == 0 {
            assert forall|more: Seq<u8>| #[trigger] ige_decrypted(key@, iv@, data0 + more) == data@
                + ige_decrypted(
                key@,
                chain_iv(data0, data@),
                more,
            ) by {
                law_decryption_resumes(key@, c0, p0, data0, more);
            }
        }
    }
}

/// The error with which a key and an initialisation vector of these lengths are refused.
pub open spec fn ige_error(key_len: nat, iv_len: nat) -> Option<CryptoError> {
    if key_len != 32 {
        Some(CryptoError::KeyLength)
    } else if iv_len != 32 {
        Some(CryptoError::IgeIvLength)
    } else {
        None
    }
}

/// Returns `data` encrypted. Decryption under the same key and vector gives `data` back.
pub fn ige256_encrypt(data: &[u8], key: &[u8], iv: &[u8]) -> (res: Result<Vec<u8>, CryptoError>)
    ensures
        res is Err <==> ige_error(key@.len(), iv@.len()) is Some,
        res is Err ==> ige_error(key@.len(), iv@.len()) == Some(res->Err_0),
        res is Ok ==> ({
            &&& res->Ok_0@ == ige_encrypted(key@, iv@, data@)
            &&& ige_decrypted(key@, iv@, res->Ok_0@) == data@
            &&& encrypted_by_block(key@, iv@, data@, res->Ok_0@)
            &&& encryption_resumes(key@, iv@, data@, res->Ok_0@)
        }),
        key@.len() != 32 ==> res is Err && res->Err_0 == CryptoError::KeyLength,
        key@.len() == 32 && iv@.len() != 32 ==> res is Err && res->Err_0
            == CryptoError::IgeIvLength,
        key@.len() == 32 && iv@.len() == 32 ==> ({
            &&& res is Ok
            &&& res->Ok_0@.len() == data@.len()
            &&& forall|k: int|
                data@.len() - data@.len() % 16 <= k < data@.len() ==> #[trigger] res->Ok_0@[k]
                    == data@[k]
            &&& forall|k: int|
                0 <= k < data@.len() - data@.len() % 16 ==> #[trigger] res->Ok_0@[k]
                    == primitives::aes256_encrypted(
                        key@,
                        Seq::new(
                            16,
                            |t: int|
                                data@[k - k % 16 + t] ^ (if k < 16 {
                                    iv@[t]
                                } else {
                                    res->Ok_0@[k - k % 16 - 16 + t]
                                }),
                        ),
                    )[k % 16] ^ (if k < 16 {
                        iv@[16 + k]
                    } else {
                        data@[k - 16]
                    })
        }),
{
    if key.len() != 32 {
        return Err(CryptoError::KeyLength);
    }
    if iv.len() != 32 {
        return Err(CryptoError::IgeIvLength);
    }
    let mut buf: Vec<u8> = vstd::slice::slice_to_vec(data);
    ige256_encrypt_slice(buf.as_mut_slice(), key, iv);
    Ok(buf)
}

/// Returns `data` decrypted. Encryption under the same key and vector gives `data` back.
pub fn ige256_decrypt(data: &[u8], key: &[u8], iv: &[u8]) -> (res: Result<Vec<u8>, CryptoError>)
    ensures
        res is Err <==> ige_error(key@.len(), iv@.len()) is Some,
        res is Err ==> ige_error(key@.len(), iv@.len()) == Some(res->Err_0),
        res is Ok ==> ({
            &&& res->Ok_0@ == ige_decrypted(key@, iv@, data@)
            &&& ige_encrypted(key@, iv@, res->Ok_0@) == data@
            &&& decrypted_by_block(key@, iv@, data@, res->Ok_0@)
            &&& decryption_resumes(key@, iv@, data@, res->Ok_0@)
            &&& forall|plain: Seq<u8>| #[trigger]
                ige_encrypted(key@, iv@, plain) == data@ ==> res->Ok_0@ == plain
        }),
        key@.len() != 32 ==> res is Err && res->Err_0 == CryptoError::KeyLength,
        key@.len() == 32 && iv@.len() != 32 ==> res is Err && res->Err_0
            == CryptoError::IgeIvLength,
        key@.len() == 32 && iv@.len() == 32 ==> ({
            &&& res is Ok
            &&& res->Ok_0@.len() == data@.len()
            &&& forall|k: int|
                data@.len() - data@.len() % 16 <= k < data@.len() ==> #[trigger] res->Ok_0@[k]
                    == data@[k]
            &&& forall|k: int|
                0 <= k < data@.len() - data@.len() % 16 ==> #[trigger] res->Ok_0@[k]
                    == primitives::aes256_decrypted(
                        key@,
                        Seq::new(
                            16,
                            |t: int|
                                data@[k - k % 16 + t] ^ (if k < 16 {
                                    iv@[16 + t]
                                } else {
                                    res->Ok_0@[k - k % 16 - 16 + t]
                                }),
                        ),
                    )[k % 16] ^ (if k < 16 {
                        iv@[k]
                    } else {
                        data@[k - 16]
                    })
        }),
{
    if key.len() != 32 {
        return Err(CryptoError::KeyLength);
    }
    if iv.len() != 32 {
        return Err(CryptoError::IgeIvLength);
    }
    let mut buf: Vec<u8> = vstd::slice::slice_to_vec(data);
    ige256_decrypt_slice(buf.as_mut_slice(), key, iv);
    Ok(buf)
}

} // verus!
