//! AES-256 in CTR mode, as a stream that can stop and go on within a block.
use vstd::prelude::*;

use crate::bytes;
use crate::counter;
use crate::error::CryptoError;
use crate::primitives;

verus! {

/// The byte at `pos` of the key stream that starts at counter block `ctr`.
pub open spec fn keystream_byte(key: Seq<u8>, ctr: Seq<u8>, pos: nat) -> u8 {
    primitives::aes256_encrypted(key, counter::counter_after(ctr, pos / 16))[(pos % 16) as int]
}

/// `data` combined with the key stream from `state` bytes into counter block `ctr` on.
pub open spec fn ctr_applied(key: Seq<u8>, ctr: Seq<u8>, state: nat, data: Seq<u8>) -> Seq<u8> {
    Seq::new(data.len(), |i: int| data[i] ^ keystream_byte(key, ctr, (state + i) as nat))
}

/// The counter block at which the stream stands once `len` more bytes are done.
pub open spec fn ctr_after(ctr: Seq<u8>, state: nat, len: nat) -> Seq<u8> {
    counter::counter_after(ctr, (state + len) / 16)
}

/// How far into its counter block the stream stands once `len` more bytes are done.
pub open spec fn state_after(state: nat, len: nat) -> nat {
    (state + len) % 16
}

/// The position within a block for which a state byte stands: 16 and above count as 0.
pub open spec fn state_position(state: u8) -> nat {
    if state < 16 {
        state as nat
    } else {
        0
    }
}

/// What the key stream does to a byte, on the AES block function itself: under every key, byte
/// `i` is combined with the byte of an encrypted counter block at which the stream then stands,
/// and no byte comes or goes.
pub proof fn law_ctr_byte(key: Seq<u8>, ctr: Seq<u8>, state: nat, data: Seq<u8>, i: int)
    requires
        0 <= i < data.len(),
    ensures
        ctr_applied(key, ctr, state, data).len() == data.len(),
        ctr_applied(key, ctr, state, data)[i] == data[i] ^ primitives::aes256_encrypted(
            key,
            counter::counter_after(ctr, ((state + i) / 16) as nat),
        )[(state + i) % 16],
{
}

/// How far a stream moves on: one counter block for each 16 bytes, those counted that came
/// before in the block it started in, and the rest of them into the last block.
pub proof fn law_ctr_moves(ctr: Seq<u8>, state: nat, len: nat, blocks: nat, rest: nat)
    requires
        state + len == 16 * blocks + rest,
        rest < 16,
    ensures
        ctr_after(ctr, state, len) == counter::counter_after(ctr, blocks),
        state_after(state, len) == rest,
{
}

/// Applying the key stream twice from one position gives the data back.
pub proof fn law_ctr_inverts_itself(key: Seq<u8>, ctr: Seq<u8>, state: nat, data: Seq<u8>)
    ensures
        ctr_applied(key, ctr, state, ctr_applied(key, ctr, state, data)) == data,
{
    let once = ctr_applied(key, ctr, state, data);
    assert forall|i: int| 0 <= i < data.len() implies #[trigger] ctr_applied(
        key,
        ctr,
        state,
        once,
    )[i] == data[i] by {
        bytes::lemma_xor_byte_twice(data[i], keystream_byte(key, ctr, (state + i) as nat));
    }
    assert(ctr_applied(key, ctr, state, once) =~= data);
}

/// A stream may be cut anywhere: to do `a` and then, from where that ended, `b`, is to do `a`
/// and `b` at once, and ends at the same place.
pub proof fn law_ctr_streams(key: Seq<u8>, ctr: Seq<u8>, state: nat, a: Seq<u8>, b: Seq<u8>)
    ensures
        ctr_applied(key, ctr, state, a + b) == ctr_applied(key, ctr, state, a) + ctr_applied(
            key,
            ctr_after(ctr, state, a.len()),
            state_after(state, a.len()),
            b,
        ),
        ctr_after(ctr, state, (a + b).len()) == ctr_after(
            ctr_after(ctr, state, a.len()),
            state_after(state, a.len()),
            b.len(),
        ),
        state_after(state, (a + b).len()) == state_after(state_after(state, a.len()), b.len()),
{
    let mid = ctr_after(ctr, state, a.len());
    let mid_state = state_after(state, a.len());
    let done = (state + a.len()) / 16;
    assert forall|i: int| 0 <= i < b.len() implies #[trigger] keystream_byte(
        key,
        mid,
        (mid_state + i) as nat,
    ) == keystream_byte(key, ctr, (state + a.len() + i) as nat) by {
        counter::law_counter_steps_add(ctr, done, ((mid_state + i) / 16) as nat);
        assert(done + (mid_state + i) / 16 == (state + a.len() + i) / 16);
    }
    assert(ctr_applied(key, ctr, state, a + b) =~= ctr_applied(key, ctr, state, a) + ctr_applied(
        key,
        mid,
        mid_state,
        b,
    ));
    counter::law_counter_steps_add(ctr, done, (mid_state + b.len()) / 16);
}

/// What was encrypted in two pieces decrypts at once.
pub proof fn law_ctr_pieces_decrypt_whole(
    key: Seq<u8>,
    ctr: Seq<u8>,
    state: nat,
    a: Seq<u8>,
    b: Seq<u8>,
)
    ensures
        ctr_applied(
            key,
            ctr,
            state,
            ctr_applied(key, ctr, state, a) + ctr_applied(
                key,
                ctr_after(ctr, state, a.len()),
                state_after(state, a.len()),
                b,
            ),
        ) == a + b,
{
    law_ctr_streams(key, ctr, state, a, b);
    law_ctr_inverts_itself(key, ctr, state, a + b);
}

/// What a call leaves in the initialisation vector and the state is what the next call needs:
/// a whole counter block, and a state byte that stands for the position reached.
pub proof fn law_ctr_calls_continue(ctr: Seq<u8>, state: nat, len: nat)
    ensures
        ctr_after(ctr, state, len).len() == 16,
        state_position(state_after(state, len) as u8) == state_after(state, len),
{
    counter::lemma_counter_len(ctr, (state + len) / 16);
}

/// `data` with the bytes from `at` on, as many as `take`, combined with those of `block` from
/// `offset` on.
pub open spec fn keystream_applied(
    data: Seq<u8>,
    at: int,
    take: int,
    block: Seq<u8>,
    offset: int,
) -> Seq<u8> {
    Seq::new(
        data.len(),
        |i: int|
            if at <= i < at + take {
                data[i] ^ block[i - at + offset]
            } else {
                data[i]
            },
    )
}

/// Combines `take` bytes of `data` from `at` on with the bytes of a key stream block from
/// `offset` on.
pub fn apply_keystream(data: &mut [u8], at: usize, take: usize, block: &[u8; 16], offset: usize)
    requires
        at + take <= old(data)@.len(),
        offset + take <= 16,
    ensures
        final(data)@ == keystream_applied(
            old(data)@,
            at as int,
            take as int,
            block@,
            offset as int,
        ),
        final(data)@.len() == old(data)@.len(),
        forall|i: int|
            at <= i < at + take ==> #[trigger] final(data)@[i] == old(data)@[i] ^ block@[i - at
                + offset],
        forall|i: int|
            0 <= i < at || at + take <= i < old(data)@.len() ==> #[trigger] final(data)@[i]
                == old(data)@[i],
{
    let ghost before = data@;
    let len: usize = data.len();
    let mut i: usize = 0;
    while i < take
        invariant
            i <= take,
            len == before.len(),
            at + take <= len,
            offset + take <= 16,
            data@ == keystream_applied(before, at as int, i as int, block@, offset as int),
        decreases take - i,
    {
        data[at + i] = data[at + i] ^ block[offset + i];
        i += 1;
        assert(data@ =~= keystream_applied(before, at as int, i as int, block@, offset as int));
    }
}

/// How `data` stands once its first `done` bytes are combined with the key stream.
spec fn partly_applied(key: Seq<u8>, ctr: Seq<u8>, state: nat, data: Seq<u8>, done: int) -> Seq<
    u8,
> {
    Seq::new(
        data.len(),
        |i: int|
            if i < done {
                data[i] ^ keystream_byte(key, ctr, (state + i) as nat)
            } else {
                data[i]
            },
    )
}

/// Combining the bytes that lie in one block with that block's key stream goes one step on.
proof fn lemma_apply_block(
    key: Seq<u8>,
    ctr: Seq<u8>,
    state: nat,
    data: Seq<u8>,
    done: int,
    take: int,
    block: Seq<u8>,
    offset: int,
)
    requires
        0 <= done,
        0 <= take,
        done + take <= data.len(),
        offset == (state + done) % 16,
        offset + take <= 16,
        block == primitives::aes256_encrypted(key, ctr_after(ctr, state, done as nat)),
    ensures
        keystream_applied(
            partly_applied(key, ctr, state, data, done),
            done,
            take,
            block,
            offset,
        ) == partly_applied(key, ctr, state, data, done + take),
{
    assert forall|i: int| done <= i < done + take implies #[trigger] keystream_byte(
        key,
        ctr,
        (state + i) as nat,
    ) == block[i - done + offset] by {
        assert((state + i) / 16 == (state + done) / 16);
        assert((state + i) % 16 == i - done + offset);
    }
    assert(keystream_applied(
        partly_applied(key, ctr, state, data, done),
        done,
        take,
        block,
        offset,
    ) =~= partly_applied(key, ctr, state, data, done + take));
}

/// Combines `data` with the key stream in place, from `state` bytes into counter block `ctr`
/// on, and moves `ctr` and `state` to where the stream then stands.
pub fn ctr_process(data: &mut [u8], key: &[u8], ctr: &mut [u8; 16], state: &mut usize)
    requires
        key@.len() == 32,
        *old(state) < 16,
    ensures
        final(data)@ == ctr_applied(key@, old(ctr)@, *old(state) as nat, old(data)@),
        final(ctr)@ == ctr_after(old(ctr)@, *old(state) as nat, old(data)@.len()),
        *final(state) == state_after(*old(state) as nat, old(data)@.len()),
        final(data)@.len() == old(data)@.len(),
        forall|i: int|
            0 <= i < old(data)@.len() ==> #[trigger] final(data)@[i] == old(data)@[i]
                ^ primitives::aes256_encrypted(
                key@,
                counter::counter_after(old(ctr)@, ((*old(state) + i) / 16) as nat),
            )[(*old(state) + i) % 16],
        final(ctr)@ == counter::counter_after(
            old(ctr)@,
            ((*old(state) + old(data)@.len()) / 16) as nat,
        ),
        *final(state) == (*old(state) + old(data)@.len()) % 16,
{
    let ghost data0 = data@;
    let ghost ctr0 = ctr@;
    let ghost state0 = *state as nat;
    proof {
        counter::law_counter_no_step(ctr0);
        assert(data0 =~= partly_applied(key@, ctr0, state0, data0, 0));
    }
    let len: usize = data.len();
    if len == 0 {
        return;
    }
    let mut pos: usize = 0;
    if *state != 0 {
        let ks: [u8; 16] = primitives::aes256_encrypt_block(key, ctr);
        let left: usize = 16 - *state;
        let take: usize = if left < len { left } else { len };
        apply_keystream(data, 0, take, &ks, *state);
        proof {
            lemma_apply_block(key@, ctr0, state0, data0, 0, take as int, ks@, state0 as int);
        }
        pos = take;
        *state = *state + take;
        if *state == 16 {
            *state = 0;
            counter::ctr_next(ctr);
        }
    }
    while len - pos >= 16
        invariant
            key@.len() == 32,
            len == data0.len(),
            pos <= len,
            state0 < 16,
            data@ == partly_applied(key@, ctr0, state0, data0, pos as int),
            ctr@ == ctr_after(ctr0, state0, pos as nat),
            *state == state_after(state0, pos as nat),
            pos < len ==> *state == 0,
        decreases len - pos,
    {
        let ks: [u8; 16] = primitives::aes256_encrypt_block(key, ctr);
        apply_keystream(data, pos, 16, &ks, 0);
        proof {
            lemma_apply_block(key@, ctr0, state0, data0, pos as int, 16, ks@, 0);
            counter::law_counter_steps_add(ctr0, ((state0 + pos) / 16) as nat, 1);
        }
        counter::ctr_next(ctr);
        pos += 16;
    }
    if pos < len {
        let ks: [u8; 16] = primitives::aes256_encrypt_block(key, ctr);
        let rest: usize = len - pos;
        apply_keystream(data, pos, rest, &ks, 0);
        proof {
            lemma_apply_block(key@, ctr0, state0, data0, pos as int, rest as int, ks@, 0);
        }
        *state = rest;
    }
    assert(data@ =~= ctr_applied(key@, ctr0, state0, data0));
}

/// The error with which a key and an initialisation vector of these lengths are refused.
pub open spec fn ctr_error(key_len: nat, iv_len: nat) -> Option<CryptoError> {
    if key_len != 32 {
        Some(CryptoError::KeyLength)
    } else if iv_len != 16 {
        Some(CryptoError::CtrIvLength)
    } else {
        None
    }
}

/// Tells the position within a block for which a state byte stands.
pub fn position_of_state(state: u8) -> (pos: usize)
    ensures
        pos == state_position(state),
        pos == if state < 16 {
            state as int
        } else {
            0
        },
{
    if state >= 16 {
        0
    } else {
        state as usize
    }
}

/// Encrypts `data` in place. `iv` holds the counter block and the first byte of `state` the
/// position within it; both move on, so that the next call continues the stream.
pub fn ctr256_encrypt_inplace(data: &mut [u8], key: &[u8], iv: &mut [u8], state: &mut [u8]) -> (res:
    Result<(), CryptoError>)
    requires
        ctr_error(key@.len(), old(iv)@.len()) is None ==> old(state)@.len() > 0,
    ensures
        res is Err <==> ctr_error(key@.len(), old(iv)@.len()) is Some,
        res is Err ==> ({
            &&& ctr_error(key@.len(), old(iv)@.len()) == Some(res->Err_0)
            &&& final(data)@ == old(data)@
            &&& final(iv)@ == old(iv)@
            &&& final(state)@ == old(state)@
        }),
        res is Ok ==> ({
            let pos = state_position(old(state)@[0]);
            &&& final(data)@ == ctr_applied(key@, old(iv)@, pos, old(data)@)
            &&& final(iv)@ == ctr_after(old(iv)@, pos, old(data)@.len())
            &&& final(state)@ == old(state)@.update(
                0,
                state_after(pos, old(data)@.len()) as u8,
            )
        }),
        key@.len() != 32 ==> res is Err && res->Err_0 == CryptoError::KeyLength,
        key@.len() == 32 && old(iv)@.len() != 16 ==> res is Err && res->Err_0
            == CryptoError::CtrIvLength,
        key@.len() != 32 || old(iv)@.len() != 16 ==> ({
            &&& final(data)@ == old(data)@
            &&& final(iv)@ == old(iv)@
            &&& final(state)@ == old(state)@
        }),
        key@.len() == 32 && old(iv)@.len() == 16 ==> ({
            let pos = if old(state)@[0] < 16 {
                old(state)@[0] as int
            } else {
                0
            };
            let len = old(data)@.len();
            &&& res is Ok
            &&& final(data)@.len() == len
            &&& forall|i: int|
                0 <= i < len ==> #[trigger] final(data)@[i]
                    == old(data)@[i] ^ primitives::aes256_encrypted(
                    key@,
                    counter::counter_after(old(iv)@, ((pos + i) / 16) as nat),
                )[(pos + i) % 16]
            &&& final(iv)@ == counter::counter_after(old(iv)@, ((pos + len) / 16) as nat)
            &&& final(state)@.len() == old(state)@.len()
            &&& final(state)@[0] == (pos + len) % 16
            &&& forall|j: int|
                1 <= j < old(state)@.len() ==> #[trigger] final(state)@[j] == old(state)@[j]
        }),
{
    if key.len() != 32 {
        return Err(CryptoError::KeyLength);
    }
    if iv.len() != 16 {
        return Err(CryptoError::CtrIvLength);
    }
    let mut ctr: [u8; 16] = bytes::block_at(iv, 0);
    let mut pos: usize = position_of_state(state[0]);
    assert(iv@.subrange(0, 16) =~= iv@);
    ctr_process(data, key, &mut ctr, &mut pos);
    bytes::write_block(iv, 0, &ctr);
    state[0] = pos as u8;
    assert(iv@ =~= ctr@);
    Ok(())
}

/// Decrypts `data` in place, which in CTR mode is to encrypt it.
pub fn ctr256_decrypt_inplace(data: &mut [u8], key: &[u8], iv: &mut [u8], state: &mut [u8]) -> (res:
    Result<(), CryptoError>)
    requires
        ctr_error(key@.len(), old(iv)@.len()) is None ==> old(state)@.len() > 0,
    ensures
        res is Err <==> ctr_error(key@.len(), old(iv)@.len()) is Some,
        res is Err ==> ({
            &&& ctr_error(key@.len(), old(iv)@.len()) == Some(res->Err_0)
            &&& final(data)@ == old(data)@
            &&& final(iv)@ == old(iv)@
            &&& final(state)@ == old(state)@
        }),
        res is Ok ==> ({
            let pos = state_position(old(state)@[0]);
            &&& final(data)@ == ctr_applied(key@, old(iv)@, pos, old(data)@)
            &&& final(iv)@ == ctr_after(old(iv)@, pos, old(data)@.len())
            &&& final(state)@ == old(state)@.update(
                0,
                state_after(pos, old(data)@.len()) as u8,
            )
        }),
        key@.len() != 32 ==> res is Err && res->Err_0 == CryptoError::KeyLength,
        key@.len() == 32 && old(iv)@.len() != 16 ==> res is Err && res->Err_0
            == CryptoError::CtrIvLength,
        key@.len() != 32 || old(iv)@.len() != 16 ==> ({
            &&& final(data)@ == old(data)@
            &&& final(iv)@ == old(iv)@
            &&& final(state)@ == old(state)@
        }),
        key@.len() == 32 && old(iv)@.len() == 16 ==> ({
            let pos = if old(state)@[0] < 16 {
                old(state)@[0] as int
            } else {
                0
            };
            let len = old(data)@.len();
            &&& res is Ok
            &&& final(data)@.len() == len
            &&& forall|i: int|
                0 <= i < len ==> #[trigger] final(data)@[i]
                    == old(data)@[i] ^ primitives::aes256_encrypted(
                    key@,
                    counter::counter_after(old(iv)@, ((pos + i) / 16) as nat),
                )[(pos + i) % 16]
            &&& final(iv)@ == counter::counter_after(old(iv)@, ((pos + len) / 16) as nat)
            &&& final(state)@.len() == old(state)@.len()
            &&& final(state)@[0] == (pos + len) % 16
            &&& forall|j: int|
                1 <= j < old(state)@.len() ==> #[trigger] final(state)@[j] == old(state)@[j]
        }),
{
    ctr256_encrypt_inplace(data, key, iv, state)
}

/// Returns `src` encrypted. `iv` holds the counter block and the first byte of `state` the
/// position within it; both move on, so that the next call continues the stream.
pub fn ctr256_encrypt(src: &[u8], key: &[u8], iv: &mut [u8], state: &mut [u8]) -> (res: Result<
    Vec<u8>,
    CryptoError,
>)
    requires
        ctr_error(key@.len(), old(iv)@.len()) is None ==> old(state)@.len() > 0,
    ensures
        res is Err <==> ctr_error(key@.len(), old(iv)@.len()) is Some,
        res is Err ==> ({
            &&& ctr_error(key@.len(), old(iv)@.len()) == Some(res->Err_0)
            &&& final(iv)@ == old(iv)@
            &&& final(state)@ == old(state)@
        }),
        res is Ok ==> ({
            let pos = state_position(old(state)@[0]);
            &&& res->Ok_0@ == ctr_applied(key@, old(iv)@, pos, src@)
            &&& final(iv)@ == ctr_after(old(iv)@, pos, src@.len())
            &&& final(state)@ == old(state)@.update(0, state_after(pos, src@.len()) as u8)
        }),
        key@.len() != 32 ==> res is Err && res->Err_0 == CryptoError::KeyLength,
        key@.len() == 32 && old(iv)@.len() != 16 ==> res is Err && res->Err_0
            == CryptoError::CtrIvLength,
        key@.len() != 32 || old(iv)@.len() != 16 ==> ({
            &&& final(iv)@ == old(iv)@
            &&& final(state)@ == old(state)@
        }),
        key@.len() == 32 && old(iv)@.len() == 16 ==> ({
            let pos = if old(state)@[0] < 16 {
                old(state)@[0] as int
            } else {
                0
            };
            let len = src@.len();
            &&& res is Ok
            &&& res->Ok_0@.len() == len
            &&& forall|i: int|
                0 <= i < len ==> #[trigger] res->Ok_0@[i] == src@[i] ^ primitives::aes256_encrypted(
                    key@,
                    counter::counter_after(old(iv)@, ((pos + i) / 16) as nat),
                )[(pos + i) % 16]
            &&& final(iv)@ == counter::counter_after(old(iv)@, ((pos + len) / 16) as nat)
            &&& final(state)@.len() == old(state)@.len()
            &&& final(state)@[0] == (pos + len) % 16
            &&& forall|j: int|
                1 <= j < old(state)@.len() ==> #[trigger] final(state)@[j] == old(state)@[j]
        }),
{
    let mut data: Vec<u8> = vstd::slice::slice_to_vec(src);
    match ctr256_encrypt_inplace(data.as_mut_slice(), key, iv, state) {
        Ok(()) => Ok(data),
        Err(e) => Err(e),
    }
}

/// Returns `src` decrypted, which in CTR mode is to encrypt it.
pub fn ctr256_decrypt(src: &[u8], key: &[u8], iv: &mut [u8], state: &mut [u8]) -> (res: Result<
    Vec<u8>,
    CryptoError,
>)
    requires
        ctr_error(key@.len(), old(iv)@.len()) is None ==> old(state)@.len() > 0,
    ensures
        res is Err <==> ctr_error(key@.len(), old(iv)@.len()) is Some,
        res is Err ==> ({
            &&& ctr_error(key@.len(), old(iv)@.len()) == Some(res->Err_0)
            &&& final(iv)@ == old(iv)@
            &&& final(state)@ == old(state)@
        }),
        res is Ok ==> ({
            let pos = state_position(old(state)@[0]);
            &&& res->Ok_0@ == ctr_applied(key@, old(iv)@, pos, src@)
            &&& final(iv)@ == ctr_after(old(iv)@, pos, src@.len())
            &&& final(state)@ == old(state)@.update(0, state_after(pos, src@.len()) as u8)
        }),
        key@.len() != 32 ==> res is Err && res->Err_0 == CryptoError::KeyLength,
        key@.len() == 32 && old(iv)@.len() != 16 ==> res is Err && res->Err_0
            == CryptoError::CtrIvLength,
        key@.len() != 32 || old(iv)@.len() != 16 ==> ({
            &&& final(iv)@ == old(iv)@
            &&& final(state)@ == old(state)@
        }),
        key@.len() == 32 && old(iv)@.len() == 16 ==> ({
            let pos = if old(state)@[0] < 16 {
                old(state)@[0] as int
            } else {
                0
            };
            let len = src@.len();
            &&& res is Ok
            &&& res->Ok_0@.len() == len
            &&& forall|i: int|
                0 <= i < len ==> #[trigger] res->Ok_0@[i] == src@[i] ^ primitives::aes256_encrypted(
                    key@,
                    counter::counter_after(old(iv)@, ((pos + i) / 16) as nat),
                )[(pos + i) % 16]
            &&& final(iv)@ == counter::counter_after(old(iv)@, ((pos + len) / 16) as nat)
            &&& final(state)@.len() == old(state)@.len()
            &&& final(state)@[0] == (pos + len) % 16
            &&& forall|j: int|
                1 <= j < old(state)@.len() ==> #[trigger] final(state)@[j] == old(state)@[j]
        }),
{
    ctr256_encrypt(src, key, iv, state)
}

} // verus!
