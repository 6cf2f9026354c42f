//! CTR mode on many streams at once, with the data of all of them in one buffer.
use vstd::prelude::*;

use crate::bytes;
use crate::counter;
use crate::ctr;
use crate::error::CryptoError;
use crate::primitives;

verus! {

/// The size of item `i`, as the `sizes` buffer gives it: 4 bytes, least significant first.
pub open spec fn size_at(sizes: Seq<u8>, i: int) -> nat {
    bytes::le_value(sizes.subrange(4 * i, 4 * i + 4))
}

/// Where item `i` starts: behind all the items before it.
pub open spec fn offset_at(sizes: Seq<u8>, i: nat) -> nat
    decreases i,
{
    if i == 0 {
        0
    } else {
        offset_at(sizes, (i - 1) as nat) + size_at(sizes, i - 1)
    }
}

/// The error with which a batch is refused. A batch of no items is never refused but for its
/// key.
pub open spec fn batch_error(
    data_len: nat,
    sizes: Seq<u8>,
    key_len: nat,
    ivs_len: nat,
    n: nat,
) -> Option<CryptoError> {
    if key_len != 32 {
        Some(CryptoError::KeyLength)
    } else if n == 0 {
        None
    } else if ivs_len != 16 * n {
        Some(CryptoError::BatchIvsLength)
    } else if sizes.len() != 4 * n {
        Some(CryptoError::BatchSizesLength)
    } else if offset_at(sizes, n) > usize::MAX {
        Some(CryptoError::BatchSizeOverflow)
    } else if offset_at(sizes, n) > data_len {
        Some(CryptoError::BatchDataTooShort)
    } else {
        None
    }
}

/// The counter block of item `i`.
pub open spec fn iv_at(ivs: Seq<u8>, i: int) -> Seq<u8> {
    ivs.subrange(16 * i, 16 * i + 16)
}

/// Item `i` of the batch, encrypted as a stream of its own.
pub open spec fn item_applied(
    data: Seq<u8>,
    sizes: Seq<u8>,
    key: Seq<u8>,
    ivs: Seq<u8>,
    states: Seq<u8>,
    i: int,
) -> Seq<u8> {
    ctr::ctr_applied(
        key,
        iv_at(ivs, i),
        ctr::state_position(states[i]),
        data.subrange(offset_at(sizes, i as nat) as int, offset_at(sizes, (i + 1) as nat) as int),
    )
}

/// The first `n` items of the batch, each encrypted, one behind the other.
pub open spec fn items_applied(
    data: Seq<u8>,
    sizes: Seq<u8>,
    key: Seq<u8>,
    ivs: Seq<u8>,
    states: Seq<u8>,
    n: nat,
) -> Seq<u8>
    decreases n,
{
    if n == 0 {
        Seq::empty()
    } else {
        items_applied(data, sizes, key, ivs, states, (n - 1) as nat) + item_applied(
            data,
            sizes,
            key,
            ivs,
            states,
            n - 1,
        )
    }
}

/// What a batch comes back as: nothing where it has no items, else its items and what lies
/// behind them. The data behind the last item is as it was.
pub open spec fn batch_applied(
    data: Seq<u8>,
    sizes: Seq<u8>,
    key: Seq<u8>,
    ivs: Seq<u8>,
    states: Seq<u8>,
) -> Seq<u8> {
    if states.len() == 0 {
        Seq::empty()
    } else {
        items_applied(data, sizes, key, ivs, states, states.len()) + data.skip(
            offset_at(sizes, states.len()) as int,
        )
    }
}

/// The counter blocks and states `ivs` and `states` of a batch have moved on to `new_ivs` and
/// `new_states`: each stream by the size of its item. A batch of no items changes nothing.
pub open spec fn streams_after(
    sizes: Seq<u8>,
    ivs: Seq<u8>,
    states: Seq<u8>,
    new_ivs: Seq<u8>,
    new_states: Seq<u8>,
) -> bool {
    &&& new_ivs.len() == ivs.len()
    &&& new_states.len() == states.len()
    &&& states.len() == 0 ==> new_ivs == ivs
    &&& forall|i: int|
        0 <= i < states.len() ==> #[trigger] iv_at(new_ivs, i) == ctr::ctr_after(
            iv_at(ivs, i),
            ctr::state_position(states[i]),
            size_at(sizes, i),
        )
    &&& forall|i: int|
        0 <= i < states.len() ==> #[trigger] new_states[i] == ctr::state_after(
            ctr::state_position(states[i]),
            size_at(sizes, i),
        )
}

/// Items start one behind the other.
pub proof fn lemma_offset_grows(sizes: Seq<u8>, i: nat, j: nat)
    requires
        i <= j,
    ensures
        offset_at(sizes, i) <= offset_at(sizes, j),
    decreases j,
{
    if i < j {
        lemma_offset_grows(sizes, i, (j - 1) as nat);
    }
}

/// The first `n` items take up as much room encrypted as they do plain.
pub proof fn lemma_items_len(
    data: Seq<u8>,
    sizes: Seq<u8>,
    key: Seq<u8>,
    ivs: Seq<u8>,
    states: Seq<u8>,
    n: nat,
)
    requires
        offset_at(sizes, n) <= data.len(),
    ensures
        items_applied(data, sizes, key, ivs, states, n).len() == offset_at(sizes, n),
    decreases n,
{
    if n > 0 {
        lemma_items_len(data, sizes, key, ivs, states, (n - 1) as nat);
    }
}

proof fn lemma_items_agree(
    data: Seq<u8>,
    sizes: Seq<u8>,
    key: Seq<u8>,
    ivs: Seq<u8>,
    states: Seq<u8>,
    i: nat,
    n: nat,
)
    requires
        i < n,
        offset_at(sizes, n) <= data.len(),
    ensures
        offset_at(sizes, (i + 1) as nat) <= items_applied(data, sizes, key, ivs, states, n).len(),
        items_applied(data, sizes, key, ivs, states, n).subrange(
            offset_at(sizes, i) as int,
            offset_at(sizes, (i + 1) as nat) as int,
        ) == item_applied(data, sizes, key, ivs, states, i as int),
    decreases n,
{
    let shorter = items_applied(data, sizes, key, ivs, states, (n - 1) as nat);
    let all = items_applied(data, sizes, key, ivs, states, n);
    let from = offset_at(sizes, i) as int;
    let to = offset_at(sizes, (i + 1) as nat) as int;
    lemma_offset_grows(sizes, (i + 1) as nat, n);
    lemma_items_len(data, sizes, key, ivs, states, (n - 1) as nat);
    lemma_items_len(data, sizes, key, ivs, states, n);
    if i == n - 1 {
        assert(all.subrange(from, to) =~= item_applied(data, sizes, key, ivs, states, i as int));
    } else {
        lemma_items_agree(data, sizes, key, ivs, states, i, (n - 1) as nat);
        assert(all.subrange(from, to) =~= shorter.subrange(from, to));
    }
}

/// A batch keeps the length of its data, each item of it comes back as if it had been a stream
/// of its own, and what lies behind the last item comes back as it was.
pub proof fn law_batch_is_item_by_item(
    data: Seq<u8>,
    sizes: Seq<u8>,
    key: Seq<u8>,
    ivs: Seq<u8>,
    states: Seq<u8>,
    i: nat,
)
    requires
        i < states.len(),
        offset_at(sizes, states.len()) <= data.len(),
    ensures
        batch_applied(data, sizes, key, ivs, states).len() == data.len(),
        batch_applied(data, sizes, key, ivs, states).subrange(
            offset_at(sizes, i) as int,
            offset_at(sizes, (i + 1) as nat) as int,
        ) == item_applied(data, sizes, key, ivs, states, i as int),
        batch_applied(data, sizes, key, ivs, states).skip(
            offset_at(sizes, states.len()) as int,
        ) == data.skip(offset_at(sizes, states.len()) as int),
{
    let n = states.len();
    let items = items_applied(data, sizes, key, ivs, states, n);
    let all = batch_applied(data, sizes, key, ivs, states);
    lemma_items_len(data, sizes, key, ivs, states, n);
    lemma_items_agree(data, sizes, key, ivs, states, i, n);
    let from = offset_at(sizes, i) as int;
    let to = offset_at(sizes, (i + 1) as nat) as int;
    assert(all.subrange(from, to) =~= items.subrange(from, to));
    assert(all.skip(offset_at(sizes, n) as int) =~= data.skip(offset_at(sizes, n) as int));
}

/// A batch done twice from the same counter blocks and states gives the data back.
pub proof fn law_batch_inverts_itself(
    data: Seq<u8>,
    sizes: Seq<u8>,
    key: Seq<u8>,
    ivs: Seq<u8>,
    states: Seq<u8>,
)
    requires
        states.len() > 0,
        offset_at(sizes, states.len()) <= data.len(),
    ensures
        batch_applied(
            batch_applied(data, sizes, key, ivs, states),
            sizes,
            key,
            ivs,
            states,
        ) == data,
{
    let n = states.len();
    law_batch_is_item_by_item(data, sizes, key, ivs, states, 0);
    lemma_items_invert(data, sizes, key, ivs, states, n);
    assert(data =~= data.take(offset_at(sizes, n) as int) + data.skip(offset_at(sizes, n) as int));
}

proof fn lemma_items_invert(
    data: Seq<u8>,
    sizes: Seq<u8>,
    key: Seq<u8>,
    ivs: Seq<u8>,
    states: Seq<u8>,
    n: nat,
)
    requires
        n <= states.len(),
        offset_at(sizes, states.len()) <= data.len(),
    ensures
        items_applied(
            batch_applied(data, sizes, key, ivs, states),
            sizes,
            key,
            ivs,
            states,
            n,
        ) == data.take(offset_at(sizes, n) as int),
    decreases n,
{
    lemma_offset_grows(sizes, n, states.len());
    if n > 0 {
        let i = (n - 1) as nat;
        let from = offset_at(sizes, i) as int;
        let to = offset_at(sizes, n) as int;
        lemma_items_invert(data, sizes, key, ivs, states, i);
        law_batch_is_item_by_item(data, sizes, key, ivs, states, i);
        ctr::law_ctr_inverts_itself(
            key,
            iv_at(ivs, i as int),
            ctr::state_position(states[i as int]),
            data.subrange(from, to),
        );
        assert(data.take(to) =~= data.take(from) + data.subrange(from, to));
    } else {
        assert(data.take(0) =~= Seq::empty());
    }
}

/// The size of an item is the number that its 4 bytes give, and the next item starts that much
/// later; the first starts at the front.
pub proof fn law_batch_sizes(sizes: Seq<u8>, i: nat)
    requires
        4 * i + 4 <= sizes.len(),
    ensures
        size_at(sizes, i as int) == sizes[4 * i as int] + 0x100 * sizes[4 * i as int + 1] + 0x1_0000
            * sizes[4 * i as int + 2] + 0x100_0000 * sizes[4 * i as int + 3],
        offset_at(sizes, 0) == 0,
        offset_at(sizes, i + 1) == offset_at(sizes, i) + sizes[4 * i as int]
            + 0x100 * sizes[4 * i as int + 1] + 0x1_0000 * sizes[4 * i as int + 2]
            + 0x100_0000 * sizes[4 * i as int + 3],
{
    bytes::law_le_value_4(sizes.subrange(4 * i as int, 4 * i as int + 4));
}

/// Each byte of an item is combined with the byte of its own stream: the stream that starts at
/// the item's state within the item's counter block.
pub proof fn law_batch_byte(
    data: Seq<u8>,
    sizes: Seq<u8>,
    key: Seq<u8>,
    ivs: Seq<u8>,
    states: Seq<u8>,
    i: nat,
    k: int,
)
    requires
        i < states.len(),
        offset_at(sizes, states.len()) <= data.len(),
        offset_at(sizes, i) <= k < offset_at(sizes, i + 1),
    ensures
        k < batch_applied(data, sizes, key, ivs, states).len() == data.len(),
        ({
            let pos = (if states[i as int] < 16 {
                states[i as int] as int
            } else {
                0
            }) + k - offset_at(sizes, i);
            batch_applied(data, sizes, key, ivs, states)[k] == data[k]
                ^ primitives::aes256_encrypted(
                key,
                counter::counter_after(
                    ivs.subrange(16 * i as int, 16 * i as int + 16),
                    (pos / 16) as nat,
                ),
            )[pos % 16]
        }),
{
    let all = batch_applied(data, sizes, key, ivs, states);
    let from = offset_at(sizes, i) as int;
    let to = offset_at(sizes, i + 1) as int;
    law_batch_is_item_by_item(data, sizes, key, ivs, states, i);
    lemma_offset_grows(sizes, i + 1, states.len());
    assert(all[k] == all.subrange(from, to)[k - from]);
    assert(data[k] == data.subrange(from, to)[k - from]);
}

/// Behind the last item each byte is as it was.
pub proof fn law_batch_rest(
    data: Seq<u8>,
    sizes: Seq<u8>,
    key: Seq<u8>,
    ivs: Seq<u8>,
    states: Seq<u8>,
    k: int,
)
    requires
        states.len() > 0,
        offset_at(sizes, states.len()) <= k < data.len(),
    ensures
        k < batch_applied(data, sizes, key, ivs, states).len() == data.len(),
        batch_applied(data, sizes, key, ivs, states)[k] == data[k],
{
    let all = batch_applied(data, sizes, key, ivs, states);
    let end = offset_at(sizes, states.len()) as int;
    law_batch_is_item_by_item(data, sizes, key, ivs, states, 0);
    assert(all[k] == all.skip(end)[k - end]);
    assert(data[k] == data.skip(end)[k - end]);
}

/// Each stream of a batch has moved on by the size of its item.
pub proof fn law_streams_move_on(
    sizes: Seq<u8>,
    ivs: Seq<u8>,
    states: Seq<u8>,
    new_ivs: Seq<u8>,
    new_states: Seq<u8>,
    i: nat,
)
    requires
        streams_after(sizes, ivs, states, new_ivs, new_states),
    ensures
        new_ivs.len() == ivs.len(),
        new_states.len() == states.len(),
        i < states.len() ==> ({
            let pos = (if states[i as int] < 16 {
                states[i as int] as int
            } else {
                0
            }) + offset_at(sizes, i + 1) - offset_at(sizes, i);
            &&& new_ivs.subrange(16 * i as int, 16 * i as int + 16) == counter::counter_after(
                ivs.subrange(16 * i as int, 16 * i as int + 16),
                (pos / 16) as nat,
            )
            &&& new_states[i as int] == pos % 16
        }),
{
    if i < states.len() {
        assert(iv_at(new_ivs, i as int) == ctr::ctr_after(
            iv_at(ivs, i as int),
            ctr::state_position(states[i as int]),
            size_at(sizes, i as int),
        ));
        assert(new_states[i as int] == ctr::state_after(
            ctr::state_position(states[i as int]),
            size_at(sizes, i as int),
        ));
    }
}

proof fn lemma_batch_byte_by_byte(
    data: Seq<u8>,
    sizes: Seq<u8>,
    key: Seq<u8>,
    ivs: Seq<u8>,
    states: Seq<u8>,
    new_ivs: Seq<u8>,
    new_states: Seq<u8>,
)
    requires
        states.len() > 0,
        offset_at(sizes, states.len()) <= data.len(),
        streams_after(sizes, ivs, states, new_ivs, new_states),
    ensures
        ({
            let out = batch_applied(data, sizes, key, ivs, states);
            &&& out.len() == data.len()
            &&& forall|i: nat, k: int|
                #![trigger offset_at(sizes, i), out[k]]
                i < states.len() && offset_at(sizes, i) <= k < offset_at(sizes, i + 1) ==> ({
                    let pos = (if states[i as int] < 16 {
                        states[i as int] as int
                    } else {
                        0
                    }) + k - offset_at(sizes, i);
                    out[k] == data[k] ^ primitives::aes256_encrypted(
                        key,
                        counter::counter_after(
                            ivs.subrange(16 * i as int, 16 * i as int + 16),
                            (pos / 16) as nat,
                        ),
                    )[pos % 16]
                })
            &&& forall|k: int|
                offset_at(sizes, states.len()) <= k < data.len() ==> #[trigger] out[k] == data[k]
            &&& forall|i: nat|
                #![trigger offset_at(sizes, i)]
                i < states.len() ==> ({
                    let pos = (if states[i as int] < 16 {
                        states[i as int] as int
                    } else {
                        0
                    }) + offset_at(sizes, i + 1) - offset_at(sizes, i);
                    &&& new_ivs.subrange(16 * i as int, 16 * i as int + 16)
                        == counter::counter_after(
                        ivs.subrange(16 * i as int, 16 * i as int + 16),
                        (pos / 16) as nat,
                    )
                    &&& new_states[i as int] == pos % 16
                })
        }),
{
    let out = batch_applied(data, sizes, key, ivs, states);
    law_batch_is_item_by_item(data, sizes, key, ivs, states, 0);
    assert forall|i: nat, k: int|
        #![trigger offset_at(sizes, i), out[k]]
        i < states.len() && offset_at(sizes, i) <= k < offset_at(sizes, i + 1) implies ({
        let pos = (if states[i as int] < 16 {
            states[i as int] as int
        } else {
            0
        }) + k - offset_at(sizes, i);
        out[k] == data[k] ^ primitives::aes256_encrypted(
            key,
            counter::counter_after(
                ivs.subrange(16 * i as int, 16 * i as int + 16),
                (pos / 16) as nat,
            ),
        )[pos % 16]
    }) by {
        law_batch_byte(data, sizes, key, ivs, states, i, k);
    }
    assert forall|k: int|
        offset_at(sizes, states.len()) <= k < data.len() implies #[trigger] out[k] == data[k] by {
        law_batch_rest(data, sizes, key, ivs, states, k);
    }
    assert forall|i: nat|
        #![trigger offset_at(sizes, i)]
        i < states.len() implies ({
        let pos = (if states[i as int] < 16 {
            states[i as int] as int
        } else {
            0
        }) + offset_at(sizes, i + 1) - offset_at(sizes, i);
        &&& new_ivs.subrange(16 * i as int, 16 * i as int + 16) == counter::counter_after(
            ivs.subrange(16 * i as int, 16 * i as int + 16),
            (pos / 16) as nat,
        )
        &&& new_states[i as int] == pos % 16
    }) by {
        law_streams_move_on(sizes, ivs, states, new_ivs, new_states, i);
    }
}

/// Adds up the sizes of `n` items, and returns where each starts and where the last ends.
pub fn batch_offsets(sizes: &[u8], n: usize) -> (res: Result<Vec<usize>, CryptoError>)
    requires
        sizes@.len() == 4 * n,
    ensures
        res is Err <==> offset_at(sizes@, n as nat) > usize::MAX,
        res is Err ==> res->Err_0 == CryptoError::BatchSizeOverflow,
        res is Ok ==> res->Ok_0@.len() == n + 1,
        res is Ok ==> forall|i: int|
            0 <= i <= n ==> #[trigger] res->Ok_0@[i] == offset_at(sizes@, i as nat),
        res is Ok ==> res->Ok_0@[0] == 0,
        res is Ok ==> forall|i: int, j: int|
            0 <= i < n && j == i + 1 ==> #[trigger] res->Ok_0@[j] == #[trigger] res->Ok_0@[i]
                + sizes@[4 * i] + 0x100 * sizes@[4 * i + 1] + 0x1_0000 * sizes@[4 * i + 2]
                + 0x100_0000 * sizes@[4 * i + 3],
{
    let len: usize = sizes.len();
    let mut offsets: Vec<usize> = Vec::new();
    offsets.push(0);
    let mut total: usize = 0;
    let mut i: usize = 0;
    while i < n
        invariant
            i <= n,
            len == sizes@.len(),
            len == 4 * n,
            total == offset_at(sizes@, i as nat),
            offsets@.len() == i + 1,
            forall|j: int| 0 <= j <= i ==> #[trigger] offsets@[j] == offset_at(sizes@, j as nat),
        decreases n - i,
    {
        let size: usize = bytes::read_u32(sizes, 4 * i) as usize;
        assert(size == size_at(sizes@, i as int));
        match total.checked_add(size) {
            Some(sum) => {
                total = sum;
            },
            None => {
                proof {
                    lemma_offset_grows(sizes@, (i + 1) as nat, n as nat);
                }
                return Err(CryptoError::BatchSizeOverflow);
            },
        }
        offsets.push(total);
        i += 1;
    }
    proof {
        assert forall|i: int, j: int| 0 <= i < n && j == i + 1 implies #[trigger] offsets@[j]
            == #[trigger] offsets@[i] + sizes@[4 * i] + 0x100 * sizes@[4 * i + 1] + 0x1_0000
            * sizes@[4 * i + 2] + 0x100_0000 * sizes@[4 * i + 3] by {
            law_batch_sizes(sizes@, i as nat);
        }
    }
    Ok(offsets)
}

/// Encrypts the items that lie one behind the other in `data_flat`, each with the counter block
/// and the state that it has in `ivs` and `states`, which move on.
pub fn ctr256_encrypt_batch(
    data_flat: &[u8],
    sizes: &[u8],
    key: &[u8],
    ivs: &mut [u8],
    states: &mut [u8],
) -> (res: Result<Vec<u8>, CryptoError>)
    ensures
        res is Err <==> batch_error(
            data_flat@.len(),
            sizes@,
            key@.len(),
            old(ivs)@.len(),
            old(states)@.len(),
        ) is Some,
        res is Err ==> ({
            &&& batch_error(
                data_flat@.len(),
                sizes@,
                key@.len(),
                old(ivs)@.len(),
                old(states)@.len(),
            ) == Some(res->Err_0)
            &&& final(ivs)@ == old(ivs)@
            &&& final(states)@ == old(states)@
        }),
        res is Ok ==> ({
            &&& res->Ok_0@ == batch_applied(data_flat@, sizes@, key@, old(ivs)@, old(states)@)
            &&& streams_after(sizes@, old(ivs)@, old(states)@, final(ivs)@, final(states)@)
        }),
        key@.len() != 32 ==> res is Err && res->Err_0 == CryptoError::KeyLength,
        key@.len() == 32 && old(states)@.len() == 0 ==> res is Ok && res->Ok_0@.len() == 0
            && final(ivs)@ == old(ivs)@ && final(states)@.len() == 0,
        key@.len() == 32 && old(states)@.len() > 0 ==> ({
            let n = old(states)@.len();
            let total = offset_at(sizes@, n);
            if old(ivs)@.len() != 16 * n {
                res is Err && res->Err_0 == CryptoError::BatchIvsLength
            } else if sizes@.len() != 4 * n {
                res is Err && res->Err_0 == CryptoError::BatchSizesLength
            } else if total > usize::MAX {
                res is Err && res->Err_0 == CryptoError::BatchSizeOverflow
            } else if total > data_flat@.len() {
                res is Err && res->Err_0 == CryptoError::BatchDataTooShort
            } else {
                &&& res is Ok
                &&& res->Ok_0@.len() == data_flat@.len()
                &&& forall|i: nat, k: int|
                    #![trigger offset_at(sizes@, i), res->Ok_0@[k]]
                    i < n && offset_at(sizes@, i) <= k < offset_at(sizes@, i + 1) ==> ({
                        let pos = (if old(states)@[i as int] < 16 {
                            old(states)@[i as int] as int
                        } else {
                            0
                        }) + k - offset_at(sizes@, i);
                        res->Ok_0@[k] == data_flat@[k] ^ primitives::aes256_encrypted(
                            key@,
                            counter::counter_after(
                                old(ivs)@.subrange(16 * i as int, 16 * i as int + 16),
                                (pos / 16) as nat,
                            ),
                        )[pos % 16]
                    })
                &&& forall|k: int|
                    total <= k < data_flat@.len() ==> #[trigger] res->Ok_0@[k] == data_flat@[k]
                &&& final(ivs)@.len() == old(ivs)@.len()
                &&& final(states)@.len() == n
                &&& forall|i: nat|
                    #![trigger offset_at(sizes@, i)]
                    i < n ==> ({
                        let pos = (if old(states)@[i as int] < 16 {
                            old(states)@[i as int] as int
                        } else {
                            0
                        }) + offset_at(sizes@, i + 1) - offset_at(sizes@, i);
                        &&& final(ivs)@.subrange(16 * i as int, 16 * i as int + 16)
                            == counter::counter_after(
                            old(ivs)@.subrange(16 * i as int, 16 * i as int + 16),
                            (pos / 16) as nat,
                        )
                        &&& final(states)@[i as int] == pos % 16
                    })
            }
        }),
{
    if key.len() != 32 {
        return Err(CryptoError::KeyLength);
    }
    let n: usize = states.len();
    if n == 0 {
        return Ok(Vec::new());
    }
    let ivs_len: usize = ivs.len();
    if n > usize::MAX / 16 || ivs_len != n * 16 {
        return Err(CryptoError::BatchIvsLength);
    }
    if sizes.len() != n * 4 {
        return Err(CryptoError::BatchSizesLength);
    }
    let offsets: Vec<usize> = match batch_offsets(sizes, n) {
        Ok(offsets) => offsets,
        Err(e) => {
            return Err(e);
        },
    };
    if offsets[n] > data_flat.len() {
        return Err(CryptoError::BatchDataTooShort);
    }
    let ghost ivs0 = ivs@;
    let ghost states0 = states@;
    let mut out: Vec<u8> = Vec::new();
    let mut i: usize = 0;
    while i < n
        invariant
            i <= n,
            key@.len() == 32,
            n == states0.len(),
            states@.len() == n,
            ivs0.len() == ivs_len,
            ivs@.len() == ivs_len,
            ivs_len == 16 * n,
            offsets@.len() == n + 1,
            offsets@[n as int] <= data_flat@.len(),
            forall|j: int| 0 <= j <= n ==> #[trigger] offsets@[j] == offset_at(sizes@, j as nat),
            out@ == items_applied(data_flat@, sizes@, key@, ivs0, states0, i as nat),
            forall|j: int|
                0 <= j < i ==> #[trigger] iv_at(ivs@, j) == ctr::ctr_after(
                    iv_at(ivs0, j),
                    ctr::state_position(states0[j]),
                    size_at(sizes@, j),
                ),
            forall|j: int| i <= j < n ==> #[trigger] iv_at(ivs@, j) == iv_at(ivs0, j),
            forall|j: int|
                0 <= j < i ==> #[trigger] states@[j] == ctr::state_after(
                    ctr::state_position(states0[j]),
                    size_at(sizes@, j),
                ),
            forall|j: int| i <= j < n ==> #[trigger] states@[j] == states0[j],
        decreases n - i,
    {
        let ghost ivs_before = ivs@;
        proof {
            lemma_offset_grows(sizes@, (i + 1) as nat, n as nat);
        }
        let mut item: Vec<u8> = vstd::slice::slice_to_vec(
            vstd::slice::slice_subrange(data_flat, offsets[i], offsets[i + 1]),
        );
        let mut ctr: [u8; 16] = bytes::block_at(ivs, 16 * i);
        let mut pos: usize = ctr::position_of_state(states[i]);
        assert(iv_at(ivs@, i as int) == iv_at(ivs0, i as int));
        ctr::ctr_process(item.as_mut_slice(), key, &mut ctr, &mut pos);
        bytes::append_slice(&mut out, &item);
        bytes::write_block(ivs, 16 * i, &ctr);
        states[i] = pos as u8;
        proof {
            assert(iv_at(ivs@, i as int) =~= ctr@);
            assert forall|j: int| 0 <= j < n && j != i implies #[trigger] iv_at(ivs@, j) == iv_at(
                ivs_before,
                j,
            ) by {
                assert(iv_at(ivs@, j) =~= iv_at(ivs_before, j));
            }
        }
        i += 1;
    }
    let rest: &[u8] = vstd::slice::slice_subrange(data_flat, offsets[n], data_flat.len());
    assert(rest@ =~= data_flat@.skip(offset_at(sizes@, n as nat) as int));
    bytes::append_slice(&mut out, rest);
    proof {
        lemma_batch_byte_by_byte(data_flat@, sizes@, key@, ivs0, states0, ivs@, states@);
    }
    Ok(out)
}

/// Decrypts the items of a batch, which in CTR mode is to encrypt them.
pub fn ctr256_decrypt_batch(
    data_flat: &[u8],
    sizes: &[u8],
    key: &[u8],
    ivs: &mut [u8],
    states: &mut [u8],
) -> (res: Result<Vec<u8>, CryptoError>)
    ensures
        res is Err <==> batch_error(
            data_flat@.len(),
            sizes@,
            key@.len(),
            old(ivs)@.len(),
            old(states)@.len(),
        ) is Some,
        res is Err ==> ({
            &&& batch_error(
                data_flat@.len(),
                sizes@,
                key@.len(),
                old(ivs)@.len(),
                old(states)@.len(),
            ) == Some(res->Err_0)
            &&& final(ivs)@ == old(ivs)@
            &&& final(states)@ == old(states)@
        }),
        res is Ok ==> ({
            &&& res->Ok_0@ == batch_applied(data_flat@, sizes@, key@, old(ivs)@, old(states)@)
            &&& streams_after(sizes@, old(ivs)@, old(states)@, final(ivs)@, final(states)@)
        }),
        key@.len() != 32 ==> res is Err && res->Err_0 == CryptoError::KeyLength,
        key@.len() == 32 && old(states)@.len() == 0 ==> res is Ok && res->Ok_0@.len() == 0
            && final(ivs)@ == old(ivs)@ && final(states)@.len() == 0,
        key@.len() == 32 && old(states)@.len() > 0 ==> ({
            let n = old(states)@.len();
            let total = offset_at(sizes@, n);
            if old(ivs)@.len() != 16 * n {
                res is Err && res->Err_0 == CryptoError::BatchIvsLength
            } else if sizes@.len() != 4 * n {
                res is Err && res->Err_0 == CryptoError::BatchSizesLength
            } else if total > usize::MAX {
                res is Err && res->Err_0 == CryptoError::BatchSizeOverflow
            } else if total > data_flat@.len() {
                res is Err && res->Err_0 == CryptoError::BatchDataTooShort
            } else {
                &&& res is Ok
                &&& res->Ok_0@.len() == data_flat@.len()
                &&& forall|i: nat, k: int|
                    #![trigger offset_at(sizes@, i), res->Ok_0@[k]]
                    i < n && offset_at(sizes@, i) <= k < offset_at(sizes@, i + 1) ==> ({
                        let pos = (if old(states)@[i as int] < 16 {
                            old(states)@[i as int] as int
                        } else {
                            0
                        }) + k - offset_at(sizes@, i);
                        res->Ok_0@[k] == data_flat@[k] ^ primitives::aes256_encrypted(
                            key@,
                            counter::counter_after(
                                old(ivs)@.subrange(16 * i as int, 16 * i as int + 16),
                                (pos / 16) as nat,
                            ),
                        )[pos % 16]
                    })
                &&& forall|k: int|
                    total <= k < data_flat@.len() ==> #[trigger] res->Ok_0@[k] == data_flat@[k]
                &&& final(ivs)@.len() == old(ivs)@.len()
                &&& final(states)@.len() == n
                &&& forall|i: nat|
                    #![trigger offset_at(sizes@, i)]
                    i < n ==> ({
                        let pos = (if old(states)@[i as int] < 16 {
                            old(states)@[i as int] as int
                        } else {
                            0
                        }) + offset_at(sizes@, i + 1) - offset_at(sizes@, i);
                        &&& final(ivs)@.subrange(16 * i as int, 16 * i as int + 16)
                            == counter::counter_after(
                            old(ivs)@.subrange(16 * i as int, 16 * i as int + 16),
                            (pos / 16) as nat,
                        )
                        &&& final(states)@[i as int] == pos % 16
                    })
            }
        }),
{
    ctr256_encrypt_batch(data_flat, sizes, key, ivs, states)
}

} // verus!
