//! The counter block of CTR mode: 16 bytes that hold a big-endian number and wrap around.
use vstd::prelude::*;

use crate::bytes;

verus! {

/// The value of `s` as a big-endian number.
pub open spec fn be_value(s: Seq<u8>) -> nat
    decreases s.len(),
{
    if s.len() == 0 {
        0
    } else {
        256 * be_value(s.drop_last()) + s.last() as nat
    }
}

/// The lowest `n` bytes of `v`, most significant byte first.
pub open spec fn be_bytes(v: nat, n: nat) -> Seq<u8>
    decreases n,
{
    if n == 0 {
        Seq::empty()
    } else {
        be_bytes(v / 256, (n - 1) as nat).push((v % 256) as u8)
    }
}

/// The counter block that stands `blocks` steps after `ctr`, modulo 2 to the 128.
pub open spec fn counter_after(ctr: Seq<u8>, blocks: nat) -> Seq<u8> {
    be_bytes(be_value(ctr) + blocks, 16)
}

pub proof fn lemma_be_bytes_len(v: nat, n: nat)
    ensures
        be_bytes(v, n).len() == n,
    decreases n,
{
    if n > 0 {
        lemma_be_bytes_len(v / 256, (n - 1) as nat);
    }
}

/// The big-endian bytes of the value of a byte string are that byte string.
pub proof fn law_be_bytes_of_value(s: Seq<u8>)
    ensures
        be_bytes(be_value(s), s.len()) == s,
    decreases s.len(),
{
    if s.len() > 0 {
        law_be_bytes_of_value(s.drop_last());
        assert(be_value(s) / 256 == be_value(s.drop_last()));
        assert(be_value(s) % 256 == s.last() as nat);
        assert(s =~= s.drop_last().push(s.last()));
    } else {
        assert(s =~= Seq::empty());
    }
}

/// The value of the lowest `n` bytes of a number is the number modulo 256 to the `n`.
pub proof fn law_be_value_of_bytes(v: nat, n: nat)
    ensures
        be_value(be_bytes(v, n)) == v % bytes::pow256(n),
    decreases n,
{
    if n > 0 {
        let m = bytes::pow256((n - 1) as nat);
        law_be_value_of_bytes(v / 256, (n - 1) as nat);
        assert(be_bytes(v, n).drop_last() =~= be_bytes(v / 256, (n - 1) as nat));
        lemma_pow256_positive((n - 1) as nat);
        lemma_mod_step(v, m);
    }
}

proof fn lemma_pow256_positive(n: nat)
    ensures
        bytes::pow256(n) > 0,
    decreases n,
{
    if n > 0 {
        lemma_pow256_positive((n - 1) as nat);
    }
}

proof fn lemma_mod_step(v: nat, m: nat)
    requires
        m > 0,
    ensures
        v % (256 * m) == 256 * ((v / 256) % m) + v % 256,
{
    vstd::arithmetic::div_mod::lemma_mod_breakdown(v as int, 256, m as int);
}

/// Numbers that agree modulo 256 to the `n` have the same lowest `n` bytes.
proof fn lemma_be_bytes_mod(v: nat, n: nat)
    ensures
        be_bytes(v % bytes::pow256(n), n) == be_bytes(v, n),
{
    law_be_value_of_bytes(v, n);
    lemma_be_bytes_len(v, n);
    law_be_bytes_of_value(be_bytes(v, n));
}

pub proof fn lemma_counter_len(ctr: Seq<u8>, blocks: nat)
    ensures
        counter_after(ctr, blocks).len() == 16,
{
    lemma_be_bytes_len(be_value(ctr) + blocks, 16);
}

/// No step leaves the counter block as it is.
pub proof fn law_counter_no_step(ctr: Seq<u8>)
    requires
        ctr.len() == 16,
    ensures
        counter_after(ctr, 0) == ctr,
{
    law_be_bytes_of_value(ctr);
}

/// Steps of the counter block add up.
pub proof fn law_counter_steps_add(ctr: Seq<u8>, a: nat, b: nat)
    ensures
        counter_after(counter_after(ctr, a), b) == counter_after(ctr, a + b),
{
    let v = be_value(ctr) + a;
    let m = bytes::pow256(16);
    law_be_value_of_bytes(v, 16);
    lemma_pow256_positive(16);
    assert(be_value(counter_after(ctr, a)) == v % m);
    vstd::arithmetic::div_mod::lemma_add_mod_noop(v as int, b as int, m as int);
    vstd::arithmetic::div_mod::lemma_add_mod_noop((v % m) as int, b as int, m as int);
    vstd::arithmetic::div_mod::lemma_mod_twice(v as int, m as int);
    assert((v % m + b) % m == (v + b) % m);
    lemma_be_bytes_mod(v % m + b, 16);
    lemma_be_bytes_mod(v + b, 16);
}

/// A byte string that ends in bytes 255, and the same with those bytes 0, differ in value by
/// one step of the byte before them.
proof fn lemma_carry(s: Seq<u8>, t: Seq<u8>, k: int)
    requires
        s.len() == t.len(),
        0 <= k < s.len(),
        t[k] == s[k] + 1,
        forall|j: int| 0 <= j < k ==> t[j] == s[j],
        forall|j: int| k < j < s.len() ==> s[j] == 255 && t[j] == 0,
    ensures
        be_value(t) == be_value(s) + 1,
    decreases s.len(),
{
    if k == s.len() - 1 {
        assert(s.drop_last() =~= t.drop_last());
    } else {
        lemma_carry(s.drop_last(), t.drop_last(), k);
    }
}

/// The counter of bytes 255 is followed by the counter of bytes 0.
proof fn lemma_wrap(s: Seq<u8>, t: Seq<u8>)
    requires
        s.len() == t.len(),
        forall|j: int| 0 <= j < s.len() ==> s[j] == 255 && t[j] == 0,
    ensures
        be_value(s) + 1 == bytes::pow256(s.len()),
        be_value(t) == 0,
    decreases s.len(),
{
    if s.len() > 0 {
        lemma_wrap(s.drop_last(), t.drop_last());
    }
}

/// The value of 16 bytes, written out.
pub proof fn law_be_value_16(s: Seq<u8>)
    requires
        s.len() == 16,
    ensures
        be_value(s) == 0x1000000000000000000000000000000 * s[0]
            + 0x10000000000000000000000000000 * s[1] + 0x100000000000000000000000000 * s[2]
            + 0x1000000000000000000000000 * s[3] + 0x10000000000000000000000 * s[4]
            + 0x100000000000000000000 * s[5] + 0x1000000000000000000 * s[6]
            + 0x10000000000000000 * s[7] + 0x100000000000000 * s[8] + 0x1000000000000 * s[9]
            + 0x10000000000 * s[10] + 0x100000000 * s[11] + 0x1000000 * s[12] + 0x10000 * s[13]
            + 0x100 * s[14] + s[15],
{
    reveal_with_fuel(be_value, 17);
}

/// The value of a counter block some steps on, written out: the sum modulo 2 to the 128.
pub proof fn law_counter_value(ctr: Seq<u8>, blocks: nat, next: Seq<u8>)
    requires
        ctr.len() == 16,
        next == counter_after(ctr, blocks),
    ensures
        next.len() == 16,
        0x1000000000000000000000000000000 * next[0] + 0x10000000000000000000000000000 * next[1]
            + 0x100000000000000000000000000 * next[2] + 0x1000000000000000000000000 * next[3]
            + 0x10000000000000000000000 * next[4] + 0x100000000000000000000 * next[5]
            + 0x1000000000000000000 * next[6] + 0x10000000000000000 * next[7]
            + 0x100000000000000 * next[8] + 0x1000000000000 * next[9] + 0x10000000000 * next[10]
            + 0x100000000 * next[11] + 0x1000000 * next[12] + 0x10000 * next[13] + 0x100 * next[14]
            + next[15] == (0x1000000000000000000000000000000 * ctr[0]
            + 0x10000000000000000000000000000 * ctr[1] + 0x100000000000000000000000000 * ctr[2]
            + 0x1000000000000000000000000 * ctr[3] + 0x10000000000000000000000 * ctr[4]
            + 0x100000000000000000000 * ctr[5] + 0x1000000000000000000 * ctr[6]
            + 0x10000000000000000 * ctr[7] + 0x100000000000000 * ctr[8] + 0x1000000000000 * ctr[9]
            + 0x10000000000 * ctr[10] + 0x100000000 * ctr[11] + 0x1000000 * ctr[12]
            + 0x10000 * ctr[13] + 0x100 * ctr[14] + ctr[15] + blocks)
            % 0x1_0000_0000_0000_0000_0000_0000_0000_0000int,
{
    lemma_counter_len(ctr, blocks);
    bytes::lemma_pow256_values();
    law_be_value_of_bytes(be_value(ctr) + blocks, 16);
    law_be_value_16(ctr);
    law_be_value_16(next);
}

/// In one step, a byte of the counter block moves on, from 255 to 0, exactly where all the bytes
/// behind it are 255; no other byte changes.
pub proof fn law_counter_step(ctr: Seq<u8>, blocks: nat, k: int)
    requires
        ctr.len() == 16,
        0 <= k < 16,
    ensures
        counter_after(ctr, 0) == ctr,
        counter_after(ctr, blocks).len() == 16,
        counter_after(ctr, blocks + 1)[k] == (if forall|j: int|
            k < j < 16 ==> counter_after(ctr, blocks)[j] == 255 {
            (counter_after(ctr, blocks)[k] + 1) % 256
        } else {
            counter_after(ctr, blocks)[k] as int
        }),
{
    let a = counter_after(ctr, blocks);
    lemma_counter_len(ctr, blocks);
    law_counter_no_step(ctr);
    law_counter_steps_add(ctr, blocks, 1);
    lemma_carried(a);
}

/// `s` with the last byte that is not 255 one higher, and the bytes behind it 0.
spec fn carried(s: Seq<u8>) -> Seq<u8> {
    Seq::new(
        s.len(),
        |k: int|
            if forall|j: int| k < j < s.len() ==> s[j] == 255 {
                ((s[k] + 1) % 256) as u8
            } else {
                s[k]
            },
    )
}

proof fn lemma_carried(s: Seq<u8>)
    requires
        s.len() == 16,
    ensures
        counter_after(s, 1) == carried(s),
{
    let t = carried(s);
    let k = lemma_last_below(s, 16);
    law_be_bytes_of_value(t);
    if k >= 0 {
        assert forall|j: int| 0 <= j < k implies t[j] == s[j] by {
            assert(s[k] != 255);
        }
        lemma_carry(s, t, k);
    } else {
        lemma_wrap(s, t);
        lemma_pow256_positive(16);
        lemma_be_bytes_mod(bytes::pow256(16), 16);
        vstd::arithmetic::div_mod::lemma_mod_self_0(bytes::pow256(16) as int);
    }
}

/// Finds the last of the first `n` bytes that is not 255.
proof fn lemma_last_below(s: Seq<u8>, n: int) -> (k: int)
    requires
        0 <= n <= s.len(),
    ensures
        -1 <= k < n,
        k >= 0 ==> s[k] != 255,
        forall|j: int| k < j < n ==> s[j] == 255,
    decreases n,
{
    if n == 0 {
        -1
    } else if s[n - 1] != 255 {
        n - 1
    } else {
        lemma_last_below(s, n - 1)
    }
}

/// Moves the counter block one step on.
pub fn ctr_next(ctr: &mut [u8; 16])
    ensures
        final(ctr)@ == counter_after(old(ctr)@, 1),
        forall|k: int|
            0 <= k < 16 ==> #[trigger] final(ctr)@[k] == (if forall|j: int|
                k < j < 16 ==> old(ctr)@[j] == 255 {
                (old(ctr)@[k] + 1) % 256
            } else {
                old(ctr)@[k] as int
            }),
{
    let ghost before = ctr@;
    let mut k: usize = 16;
    while k > 0
        invariant
            k <= 16,
            before == old(ctr)@,
            forall|j: int| 0 <= j < k ==> #[trigger] ctr@[j] == before[j],
            forall|j: int| k <= j < 16 ==> #[trigger] before[j] == 255,
            forall|j: int| k <= j < 16 ==> #[trigger] ctr@[j] == 0,
        decreases k,
    {
        k -= 1;
        let next: u8 = ctr[k].wrapping_add(1);
        assert(next == 0 <==> before[k as int] == 255);
        ctr[k] = next;
        if next != 0 {
            proof {
                lemma_carry(before, ctr@, k as int);
                law_be_bytes_of_value(ctr@);
                lemma_carried(before);
            }
            return;
        }
    }
    proof {
        lemma_wrap(before, ctr@);
        lemma_pow256_positive(16);
        lemma_be_bytes_mod(bytes::pow256(16), 16);
        assert(bytes::pow256(16) % bytes::pow256(16) == 0) by {
            vstd::arithmetic::div_mod::lemma_mod_self_0(bytes::pow256(16) as int);
        }
        law_be_bytes_of_value(ctr@);
        lemma_carried(before);
    }
}

} // verus!
