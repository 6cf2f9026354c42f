//! Byte strings: exclusive or, slices as blocks, and integers as bytes.
use vstd::prelude::*;

verus! {

/// The byte-wise exclusive or of two byte strings of one length.
pub open spec fn xor_bytes(a: Seq<u8>, b: Seq<u8>) -> Seq<u8> {
    Seq::new(a.len(), |i: int| a[i] ^ b[i])
}

/// Exclusive or with the same bytes twice changes nothing.
pub proof fn lemma_xor_twice(a: Seq<u8>, b: Seq<u8>)
    requires
        a.len() == b.len(),
    ensures
        xor_bytes(xor_bytes(a, b), b) == a,
{
    assert forall|i: int| 0 <= i < a.len() implies #[trigger] xor_bytes(xor_bytes(a, b), b)[i]
        == a[i] by {
        lemma_xor_byte_twice(a[i], b[i]);
    }
    assert(xor_bytes(xor_bytes(a, b), b) =~= a);
}

pub proof fn lemma_xor_byte_twice(a: u8, b: u8)
    ensures
        (a ^ b) ^ b == a,
{
    assert((a ^ b) ^ b == a) by (bit_vector);
}

/// Combines two blocks by exclusive or.
pub fn xor_block(a: &[u8; 16], b: &[u8; 16]) -> (out: [u8; 16])
    ensures
        out@ == xor_bytes(a@, b@),
        forall|j: int| 0 <= j < 16 ==> #[trigger] out@[j] == a@[j] ^ b@[j],
{
    let mut out: [u8; 16] = [0u8; 16];
    let mut i: usize = 0;
    while i < 16
        invariant
            i <= 16,
            forall|j: int| 0 <= j < i ==> out@[j] == a@[j] ^ b@[j],
        decreases 16 - i,
    {
        out[i] = a[i] ^ b[i];
        i += 1;
    }
    assert(out@ =~= xor_bytes(a@, b@));
    out
}

/// Returns the 16 bytes of `s` from `at` on.
pub fn block_at(s: &[u8], at: usize) -> (out: [u8; 16])
    requires
        at + 16 <= s@.len(),
    ensures
        out@ == s@.subrange(at as int, at + 16),
{
    let mut out: [u8; 16] = [0u8; 16];
    let mut i: usize = 0;
    while i < 16
        invariant
            i <= 16,
            at + 16 <= s.len(),
            forall|j: int| 0 <= j < i ==> out@[j] == s@[at + j],
        decreases 16 - i,
    {
        out[i] = s[at + i];
        i += 1;
    }
    assert(out@ =~= s@.subrange(at as int, at + 16));
    out
}

/// `s` with the bytes from `at` on replaced by those of `part`.
pub open spec fn overwritten(s: Seq<u8>, at: int, part: Seq<u8>) -> Seq<u8> {
    Seq::new(
        s.len(),
        |i: int|
            if at <= i < at + part.len() {
                part[i - at]
            } else {
                s[i]
            },
    )
}

/// Writes a block into `s` from `at` on.
pub fn write_block(s: &mut [u8], at: usize, block: &[u8; 16])
    requires
        at + 16 <= old(s)@.len(),
    ensures
        final(s)@ == overwritten(old(s)@, at as int, block@),
        final(s)@.len() == old(s)@.len(),
        forall|i: int| at <= i < at + 16 ==> #[trigger] final(s)@[i] == block@[i - at],
        forall|i: int|
            0 <= i < at || at + 16 <= i < old(s)@.len() ==> #[trigger] final(s)@[i] == old(s)@[i],
{
    let ghost before = s@;
    let len: usize = s.len();
    let mut i: usize = 0;
    while i < 16
        invariant
            i <= 16,
            len == before.len(),
            at + 16 <= len,
            s@ == overwritten(before, at as int, block@.subrange(0, i as int)),
        decreases 16 - i,
    {
        s[at + i] = block[i];
        i += 1;
        assert(s@ =~= overwritten(before, at as int, block@.subrange(0, i as int)));
    }
    assert(block@.subrange(0, 16) =~= block@);
}

/// Appends the bytes of `s` to `v`.
pub fn append_slice(v: &mut Vec<u8>, s: &[u8])
    ensures
        final(v)@ == old(v)@ + s@,
{
    v.extend_from_slice(s);
    assert(v@ =~= old(v)@ + s@);
}

/// Joins two byte strings.
pub fn concat(a: &[u8], b: &[u8]) -> (out: Vec<u8>)
    ensures
        out@ == a@ + b@,
{
    let mut out: Vec<u8> = Vec::new();
    append_slice(&mut out, a);
    append_slice(&mut out, b);
    assert(out@ =~= a@ + b@);
    out
}

/// Tells whether two byte strings are the same.
pub fn same_bytes(a: &[u8], b: &[u8]) -> (same: bool)
    ensures
        same == (a@ == b@),
{
    if a.len() != b.len() {
        return false;
    }
    let mut i: usize = 0;
    while i < a.len()
        invariant
            i <= a@.len(),
            a@.len() == b@.len(),
            forall|j: int| 0 <= j < i ==> a@[j] == b@[j],
        decreases a@.len() - i,
    {
        if a[i] != b[i] {
            return false;
        }
        i += 1;
    }
    assert(a@ =~= b@);
    true
}

/// The number of values that `n` bytes can take.
pub open spec fn pow256(n: nat) -> nat
    decreases n,
{
    if n == 0 {
        1
    } else {
        256 * pow256((n - 1) as nat)
    }
}

pub proof fn lemma_pow256_values()
    ensures
        pow256(4) == 0x1_0000_0000,
        pow256(8) == 0x1_0000_0000_0000_0000,
        pow256(16) == 0x1_0000_0000_0000_0000_0000_0000_0000_0000,
{
    reveal_with_fuel(pow256, 17);
}

/// The value of `s` as a little-endian number.
pub open spec fn le_value(s: Seq<u8>) -> nat
    decreases s.len(),
{
    if s.len() == 0 {
        0
    } else {
        s[0] as nat + 256 * le_value(s.skip(1))
    }
}

/// The lowest `n` bytes of `v`, least significant byte first.
pub open spec fn le_bytes(v: nat, n: nat) -> Seq<u8>
    decreases n,
{
    if n == 0 {
        Seq::empty()
    } else {
        seq![(v % 256) as u8] + le_bytes(v / 256, (n - 1) as nat)
    }
}

pub proof fn lemma_le_bytes_len(v: nat, n: nat)
    ensures
        le_bytes(v, n).len() == n,
    decreases n,
{
    if n > 0 {
        lemma_le_bytes_len(v / 256, (n - 1) as nat);
    }
}

pub proof fn lemma_le_value_bound(s: Seq<u8>)
    ensures
        le_value(s) < pow256(s.len()),
    decreases s.len(),
{
    if s.len() > 0 {
        lemma_le_value_bound(s.skip(1));
    }
}

/// A number that fits in `n` bytes is the value of its `n` little-endian bytes.
pub proof fn law_le_round_trip(v: nat, n: nat)
    requires
        v < pow256(n),
    ensures
        le_value(le_bytes(v, n)) == v,
    decreases n,
{
    if n > 0 {
        let rest = le_bytes(v / 256, (n - 1) as nat);
        law_le_round_trip(v / 256, (n - 1) as nat);
        assert(le_bytes(v, n).skip(1) =~= rest);
    }
}

/// The value of 8 bytes, written out.
pub proof fn law_le_value_8(s: Seq<u8>)
    requires
        s.len() == 8,
    ensures
        le_value(s) == s[0] + 0x100 * s[1] + 0x1_0000 * s[2] + 0x100_0000 * s[3]
            + 0x1_0000_0000 * s[4] + 0x100_0000_0000 * s[5] + 0x1_0000_0000_0000 * s[6]
            + 0x100_0000_0000_0000 * s[7],
{
    reveal_with_fuel(le_value, 9);
}

/// The value of 4 bytes, written out.
pub proof fn law_le_value_4(s: Seq<u8>)
    requires
        s.len() == 4,
    ensures
        le_value(s) == s[0] + 0x100 * s[1] + 0x1_0000 * s[2] + 0x100_0000 * s[3],
{
    reveal_with_fuel(le_value, 5);
}

/// The bytes of a number that fits in 8 bytes, written out.
pub proof fn law_le_bytes_8(v: nat)
    requires
        v < 0x1_0000_0000_0000_0000,
    ensures
        le_bytes(v, 8).len() == 8,
        v == le_bytes(v, 8)[0] + 0x100 * le_bytes(v, 8)[1] + 0x1_0000 * le_bytes(v, 8)[2]
            + 0x100_0000 * le_bytes(v, 8)[3] + 0x1_0000_0000 * le_bytes(v, 8)[4]
            + 0x100_0000_0000 * le_bytes(v, 8)[5] + 0x1_0000_0000_0000 * le_bytes(v, 8)[6]
            + 0x100_0000_0000_0000 * le_bytes(v, 8)[7],
{
    lemma_pow256_values();
    lemma_le_bytes_len(v, 8);
    law_le_round_trip(v, 8);
    law_le_value_8(le_bytes(v, 8));
}

/// The bytes of a number that fits in 4 bytes, written out.
pub proof fn law_le_bytes_4(v: nat)
    requires
        v < 0x1_0000_0000,
    ensures
        le_bytes(v, 4).len() == 4,
        v == le_bytes(v, 4)[0] + 0x100 * le_bytes(v, 4)[1] + 0x1_0000 * le_bytes(v, 4)[2]
            + 0x100_0000 * le_bytes(v, 4)[3],
{
    lemma_pow256_values();
    lemma_le_bytes_len(v, 4);
    law_le_round_trip(v, 4);
    law_le_value_4(le_bytes(v, 4));
}

/// Signed and unsigned reading of the same bits differ by a whole turn, and each stays in its
/// range.
pub proof fn law_signs(v: nat, i: i64, k: i32)
    ensures
        v < 0x1_0000_0000_0000_0000 ==> -0x8000_0000_0000_0000 <= signed_64(v)
            < 0x8000_0000_0000_0000 && (signed_64(v) == v || signed_64(v) == v
            - 0x1_0000_0000_0000_0000),
        -0x8000_0000 <= signed_32(v) < 0x8000_0000,
        (v - signed_32(v)) % 0x1_0000_0000 == 0,
        unsigned_64(i) == i || unsigned_64(i) == i + 0x1_0000_0000_0000_0000,
        0 <= unsigned_64(i) < 0x1_0000_0000_0000_0000,
        unsigned_32(k) == k || unsigned_32(k) == k + 0x1_0000_0000,
        0 <= unsigned_32(k) < 0x1_0000_0000,
{
}

/// Appends the 8 bytes of `x`, least significant byte first.
pub fn append_u64(v: &mut Vec<u8>, x: u64)
    ensures
        final(v)@ == old(v)@ + le_bytes(x as nat, 8),
        final(v)@.len() == old(v)@.len() + 8,
        final(v)@.subrange(0, old(v)@.len() as int) == old(v)@,
        x == final(v)@[old(v)@.len() as int] + 0x100 * final(v)@[old(v)@.len() as int + 1]
            + 0x1_0000 * final(v)@[old(v)@.len() as int + 2]
            + 0x100_0000 * final(v)@[old(v)@.len() as int + 3]
            + 0x1_0000_0000 * final(v)@[old(v)@.len() as int + 4]
            + 0x100_0000_0000 * final(v)@[old(v)@.len() as int + 5]
            + 0x1_0000_0000_0000 * final(v)@[old(v)@.len() as int + 6]
            + 0x100_0000_0000_0000 * final(v)@[old(v)@.len() as int + 7],
{
    proof {
        law_le_bytes_8(x as nat);
    }
    append_le(v, x, 8);
}

/// Appends the 4 bytes of `x`, least significant byte first.
pub fn append_u32(v: &mut Vec<u8>, x: u32)
    ensures
        final(v)@ == old(v)@ + le_bytes(x as nat, 4),
        final(v)@.len() == old(v)@.len() + 4,
        final(v)@.subrange(0, old(v)@.len() as int) == old(v)@,
        x == final(v)@[old(v)@.len() as int] + 0x100 * final(v)@[old(v)@.len() as int + 1]
            + 0x1_0000 * final(v)@[old(v)@.len() as int + 2]
            + 0x100_0000 * final(v)@[old(v)@.len() as int + 3],
{
    proof {
        law_le_bytes_4(x as nat);
    }
    append_le(v, x as u64, 4);
}

/// Appends the lowest `n` bytes of `x`, least significant byte first.
fn append_le(v: &mut Vec<u8>, x: u64, n: usize)
    ensures
        final(v)@ == old(v)@ + le_bytes(x as nat, n as nat),
    decreases n,
{
    if n == 0 {
        assert(v@ =~= old(v)@ + le_bytes(x as nat, 0));
    } else {
        let low: u64 = x % 256;
        v.push(low as u8);
        append_le(v, x / 256, n - 1);
        assert(v@ =~= old(v)@ + le_bytes(x as nat, n as nat));
    }
}

/// The little-endian value of `n` bytes of `s` from `at` on.
fn read_le(s: &[u8], at: usize, n: usize) -> (x: u64)
    requires
        n <= 8,
        at + n <= s.len(),
    ensures
        x as nat == le_value(s@.subrange(at as int, at + n)),
    decreases n,
{
    let ghost part = s@.subrange(at as int, at + n);
    if n == 0 {
        return 0;
    }
    let rest: u64 = read_le(s, at + 1, n - 1);
    proof {
        assert(part.skip(1) =~= s@.subrange(at + 1, at + n));
        lemma_le_value_bound(part.skip(1));
        reveal_with_fuel(pow256, 9);
        lemma_pow256_grows((n - 1) as nat, 7);
    }
    s[at] as u64 + 256 * rest
}

proof fn lemma_pow256_grows(m: nat, n: nat)
    requires
        m <= n,
    ensures
        pow256(m) <= pow256(n),
    decreases n,
{
    if m < n {
        lemma_pow256_grows(m, (n - 1) as nat);
    }
}

/// Reads 8 bytes of `s` from `at` on as a little-endian number.
pub fn read_u64(s: &[u8], at: usize) -> (x: u64)
    requires
        at + 8 <= s@.len(),
    ensures
        x as nat == le_value(s@.subrange(at as int, at + 8)),
        x == s@[at as int] + 0x100 * s@[at as int + 1] + 0x1_0000 * s@[at as int + 2]
            + 0x100_0000 * s@[at as int + 3] + 0x1_0000_0000 * s@[at as int + 4]
            + 0x100_0000_0000 * s@[at as int + 5] + 0x1_0000_0000_0000 * s@[at as int + 6]
            + 0x100_0000_0000_0000 * s@[at as int + 7],
{
    proof {
        law_le_value_8(s@.subrange(at as int, at + 8));
    }
    read_le(s, at, 8)
}

/// Reads 4 bytes of `s` from `at` on as a little-endian number.
pub fn read_u32(s: &[u8], at: usize) -> (x: u32)
    requires
        at + 4 <= s@.len(),
    ensures
        x as nat == le_value(s@.subrange(at as int, at + 4)),
        x == s@[at as int] + 0x100 * s@[at as int + 1] + 0x1_0000 * s@[at as int + 2]
            + 0x100_0000 * s@[at as int + 3],
{
    proof {
        law_le_value_4(s@.subrange(at as int, at + 4));
    }
    let x: u64 = read_le(s, at, 4);
    proof {
        lemma_le_value_bound(s@.subrange(at as int, at + 4));
        lemma_pow256_values();
    }
    x as u32
}

/// The two's complement value of 64 bits.
pub open spec fn signed_64(v: nat) -> int {
    if v < 0x8000_0000_0000_0000 {
        v as int
    } else {
        v - 0x1_0000_0000_0000_0000
    }
}

/// The two's complement value of the lowest 32 bits of `v`.
pub open spec fn signed_32(v: nat) -> int {
    let low = v % 0x1_0000_0000;
    if low < 0x8000_0000 {
        low as int
    } else {
        low - 0x1_0000_0000
    }
}

/// The 64 bits that stand for `v` in two's complement, as a number.
pub open spec fn unsigned_64(v: i64) -> nat {
    if v >= 0 {
        v as nat
    } else {
        (v + 0x1_0000_0000_0000_0000) as nat
    }
}

/// The 32 bits that stand for `v` in two's complement, as a number.
pub open spec fn unsigned_32(v: i32) -> nat {
    if v >= 0 {
        v as nat
    } else {
        (v + 0x1_0000_0000) as nat
    }
}

/// Reads 64 bits as a signed number.
pub fn to_i64(x: u64) -> (v: i64)
    ensures
        v == signed_64(x as nat),
        v == if x < 0x8000_0000_0000_0000 {
            x as int
        } else {
            x - 0x1_0000_0000_0000_0000
        },
{
    let v: i64 = x as i64;
    assert(x < 0x8000_0000_0000_0000 ==> x as i64 == x) by (bit_vector);
    assert(x >= 0x8000_0000_0000_0000 ==> x as i64 == x - 0x1_0000_0000_0000_0000) by (bit_vector);
    v
}

/// Reads 32 bits as a signed number.
pub fn to_i32(x: u32) -> (v: i32)
    ensures
        v == signed_32(x as nat),
        v == if x < 0x8000_0000 {
            x as int
        } else {
            x - 0x1_0000_0000
        },
{
    let v: i32 = x as i32;
    assert(x < 0x8000_0000 ==> x as i32 == x) by (bit_vector);
    assert(x >= 0x8000_0000 ==> x as i32 == x - 0x1_0000_0000) by (bit_vector);
    v
}

/// Writes a signed number as 64 bits.
pub fn to_u64(v: i64) -> (x: u64)
    ensures
        x as nat == unsigned_64(v),
        x == if v >= 0 {
            v as int
        } else {
            v + 0x1_0000_0000_0000_0000
        },
{
    let x: u64 = v as u64;
    assert(v >= 0 ==> v as u64 == v) by (bit_vector);
    assert(v < 0 ==> v as u64 == v + 0x1_0000_0000_0000_0000) by (bit_vector);
    x
}

/// Writes a signed number as 32 bits.
pub fn to_u32(v: i32) -> (x: u32)
    ensures
        x as nat == unsigned_32(v),
        x == if v >= 0 {
            v as int
        } else {
            v + 0x1_0000_0000
        },
{
    let x: u32 = v as u32;
    assert(v >= 0 ==> v as u32 == v) by (bit_vector);
    assert(v < 0 ==> v as u32 == v + 0x1_0000_0000) by (bit_vector);
    x
}

/// The lowest 32 bits of a length.
pub fn low_u32(len: usize) -> (x: u32)
    ensures
        x as nat == len as nat % 0x1_0000_0000,
{
    let wide: u64 = len as u64;
    let low: u64 = wide % 0x1_0000_0000;
    low as u32
}

} // verus!
