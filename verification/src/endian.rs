//! Fixed-width integers as bytes, in both byte orders.
//!
//! An unsigned integer of `n` bytes is a number below `256^n`; its bytes are
//! its digits in base 256. A signed integer is encoded as its two's
//! complement, the unsigned number that is congruent to it modulo `256^n`.
use vstd::prelude::*;

verus! {

/// `256^n`, the number of values that `n` bytes can hold.
pub open spec fn pow256(n: nat) -> nat
    decreases n,
{
    if n == 0 {
        1
    } else {
        256 * pow256((n - 1) as nat)
    }
}

/// The `n` low digits of `v` in base 256, most significant first.
pub open spec fn be_bytes(v: nat, n: nat) -> Seq<u8>
    decreases n,
{
    if n == 0 {
        Seq::empty()
    } else {
        be_bytes(v / 256, (n - 1) as nat).push((v % 256) as u8)
    }
}

/// The `n` low digits of `v` in base 256, least significant first.
pub open spec fn le_bytes(v: nat, n: nat) -> Seq<u8>
    decreases n,
{
    if n == 0 {
        Seq::empty()
    } else {
        seq![(v % 256) as u8] + le_bytes(v / 256, (n - 1) as nat)
    }
}

/// The number whose digits in base 256 are `s`, most significant first.
pub open spec fn be_value(s: Seq<u8>) -> nat
    decreases s.len(),
{
    if s.len() == 0 {
        0
    } else {
        be_value(s.drop_last()) * 256 + s.last() as nat
    }
}

/// The number whose digits in base 256 are `s`, least significant first.
pub open spec fn le_value(s: Seq<u8>) -> nat
    decreases s.len(),
{
    if s.len() == 0 {
        0
    } else {
        s.first() as nat + 256 * le_value(s.drop_first())
    }
}

/// The two's complement of `x` in `n` bytes.
pub open spec fn to_unsigned(x: int, n: nat) -> nat {
    if x < 0 {
        (x + pow256(n)) as nat
    } else {
        x as nat
    }
}

/// The signed number whose two's complement in `n` bytes is `v`.
pub open spec fn to_signed(v: nat, n: nat) -> int {
    if 2 * v >= pow256(n) {
        v - pow256(n)
    } else {
        v as int
    }
}

/// The powers of 256 for the widths that integers have.
pub proof fn lemma_pow256_values()
    ensures
        pow256(0) == 1,
        pow256(1) == 0x100,
        pow256(2) == 0x1_0000,
        pow256(4) == 0x1_0000_0000,
        pow256(8) == 0x1_0000_0000_0000_0000,
        pow256(16) == 0x1_0000_0000_0000_0000_0000_0000_0000_0000,
{
    reveal_with_fuel(pow256, 17);
}

/// Powers of 256 grow with the exponent.
pub proof fn lemma_pow256_monotone(a: nat, b: nat)
    requires
        a <= b,
    ensures
        0 < pow256(a) <= pow256(b),
    decreases b,
{
    if b == 0 {
    } else if a == b {
        lemma_pow256_monotone((a - 1) as nat, (b - 1) as nat);
    } else {
        lemma_pow256_monotone(a, (b - 1) as nat);
    }
}

/// Both byte orders yield exactly `n` bytes.
pub proof fn lemma_bytes_len(v: nat, n: nat)
    ensures
        be_bytes(v, n).len() == n,
        le_bytes(v, n).len() == n,
    decreases n,
{
    if n > 0 {
        lemma_bytes_len(v / 256, (n - 1) as nat);
    }
}

/// The value of `n` bytes is below `256^n`.
pub proof fn lemma_value_bound(s: Seq<u8>)
    ensures
        be_value(s) < pow256(s.len()),
        le_value(s) < pow256(s.len()),
    decreases s.len(),
{
    if s.len() > 0 {
        lemma_value_bound(s.drop_last());
        lemma_value_bound(s.drop_first());
    }
}

/// Reading back the `n` bytes of a number below `256^n` gives the number.
pub proof fn lemma_value_of_bytes(v: nat, n: nat)
    requires
        v < pow256(n),
    ensures
        be_value(be_bytes(v, n)) == v,
        le_value(le_bytes(v, n)) == v,
    decreases n,
{
    if n > 0 {
        let m = (n - 1) as nat;
        lemma_value_of_bytes(v / 256, m);
        assert(be_bytes(v, n).drop_last() =~= be_bytes(v / 256, m));
        assert(le_bytes(v, n).drop_first() =~= le_bytes(v / 256, m));
    }
}

/// Writing the value of a byte sequence gives the sequence back.
pub proof fn lemma_bytes_of_value(s: Seq<u8>)
    ensures
        be_bytes(be_value(s), s.len()) == s,
        le_bytes(le_value(s), s.len()) == s,
    decreases s.len(),
{
    if s.len() > 0 {
        lemma_bytes_of_value(s.drop_last());
        lemma_bytes_of_value(s.drop_first());
    }
}

/// The little-endian bytes of a number are its big-endian bytes in
/// reverse.
pub proof fn lemma_le_is_reversed_be(v: nat, n: nat)
    ensures
        le_bytes(v, n) == be_bytes(v, n).reverse(),
    decreases n,
{
    if n > 0 {
        let m = (n - 1) as nat;
        lemma_le_is_reversed_be(v / 256, m);
    }
}

/// Writes the `width` low bytes of `v` at the front of `buf`, most
/// significant first.
pub fn put_be(v: u128, width: usize, buf: &mut [u8])
    requires
        width <= old(buf)@.len(),
    ensures
        final(buf)@ == be_bytes(v as nat, width as nat) + old(buf)@.skip(width as int),
{
    let ghost all = be_bytes(v as nat, width as nat);
    proof {
        lemma_bytes_len(v as nat, width as nat);
    }
    let mut rest: u128 = v;
    let mut i: usize = width;
    while i > 0
        invariant
            i <= width <= buf@.len(),
            buf@.len() == old(buf)@.len(),
            all == be_bytes(v as nat, width as nat),
            all.len() == width,
            all.take(i as int) == be_bytes(rest as nat, i as nat),
            buf@.subrange(i as int, width as int) == all.skip(i as int),
            buf@.skip(width as int) == old(buf)@.skip(width as int),
            buf@.take(i as int) == old(buf)@.take(i as int),
        decreases i,
    {
        let ghost before = buf@;
        i -= 1;
        buf[i] = (rest % 256) as u8;
        rest = rest / 256;
        proof {
            assert(all[i as int] == all.take(i + 1).last());
            assert(buf@.subrange(i as int, width as int) =~= all.skip(i as int)) by {
                assert forall|j: int| 0 <= j < width - i implies buf@.subrange(
                    i as int,
                    width as int,
                )[j] == all.skip(i as int)[j] by {
                    if j > 0 {
                        assert(before.subrange(i + 1, width as int)[j - 1] == all.skip(i + 1)[j
                            - 1]);
                    }
                }
            }
        }
    }
    proof {
        assert(buf@ =~= buf@.subrange(0, width as int) + buf@.skip(width as int));
    }
}

/// Writes the `width` low bytes of `v` at the front of `buf`, least
/// significant first.
pub fn put_le(v: u128, width: usize, buf: &mut [u8])
    requires
        width <= old(buf)@.len(),
    ensures
        final(buf)@ == le_bytes(v as nat, width as nat) + old(buf)@.skip(width as int),
{
    let ghost all = le_bytes(v as nat, width as nat);
    proof {
        lemma_bytes_len(v as nat, width as nat);
    }
    let mut rest: u128 = v;
    let mut i: usize = 0;
    while i < width
        invariant
            i <= width <= buf@.len(),
            buf@.len() == old(buf)@.len(),
            all == le_bytes(v as nat, width as nat),
            all.len() == width,
            all.skip(i as int) == le_bytes(rest as nat, (width - i) as nat),
            buf@.take(i as int) == all.take(i as int),
            buf@.skip(width as int) == old(buf)@.skip(width as int),
        decreases width - i,
    {
        buf[i] = (rest % 256) as u8;
        rest = rest / 256;
        proof {
            assert(all.skip(i + 1) =~= all.skip(i as int).drop_first());
            assert(all[i as int] == all.skip(i as int).first());
        }
        i += 1;
    }
}

/// The number that the first `width` bytes of `buf` hold, most significant
/// first.
pub fn get_be(buf: &[u8], width: usize) -> (v: u128)
    requires
        width <= 16,
        width <= buf@.len(),
    ensures
        v == be_value(buf@.take(width as int)),
{
    let mut v: u128 = 0;
    let mut i: usize = 0;
    while i < width
        invariant
            i <= width <= 16,
            width <= buf@.len(),
            v == be_value(buf@.take(i as int)),
        decreases width - i,
    {
        proof {
            lemma_value_bound(buf@.take(i as int));
            lemma_pow256_monotone(i as nat, 15);
            lemma_pow256_values();
            assert(buf@.take(i + 1).drop_last() =~= buf@.take(i as int));
        }
        v = v * 256 + buf[i] as u128;
        i += 1;
    }
    v
}

/// The number that the first `width` bytes of `buf` hold, least
/// significant first.
pub fn get_le(buf: &[u8], width: usize) -> (v: u128)
    requires
        width <= 16,
        width <= buf@.len(),
    ensures
        v == le_value(buf@.take(width as int)),
{
    let ghost s = buf@.take(width as int);
    let mut v: u128 = 0;
    let mut i: usize = width;
    while i > 0
        invariant
            i <= width <= 16,
            width <= buf@.len(),
            s == buf@.take(width as int),
            v == le_value(s.skip(i as int)),
        decreases i,
    {
        proof {
            lemma_value_bound(s.skip(i as int));
            lemma_pow256_monotone((width - i) as nat, 15);
            lemma_pow256_values();
            assert(s.skip(i - 1).drop_first() =~= s.skip(i as int));
        }
        i -= 1;
        v = buf[i] as u128 + 256 * v;
    }
    proof {
        assert(s.skip(0) =~= s);
    }
    v
}

/// The two's complement of an `i8`.
pub fn i8_to_bits(x: i8) -> (v: u128)
    ensures
        v == to_unsigned(x as int, 1),
        v < pow256(1),
{
    proof {
        lemma_pow256_values();
    }
    if x >= 0 {
        x as u128
    } else {
        (x as i16 + 0x100) as u128
    }
}

/// The `i8` whose two's complement is `v`.
pub fn i8_from_bits(v: u128) -> (x: i8)
    requires
        v < pow256(1),
    ensures
        x == to_signed(v as nat, 1),
{
    proof {
        lemma_pow256_values();
    }
    if v >= 0x80 {
        (v as i16 - 0x100) as i8
    } else {
        v as i8
    }
}

/// The two's complement of an `i16`.
pub fn i16_to_bits(x: i16) -> (v: u128)
    ensures
        v == to_unsigned(x as int, 2),
        v < pow256(2),
{
    proof {
        lemma_pow256_values();
    }
    if x >= 0 {
        x as u128
    } else {
        (x as i32 + 0x1_0000) as u128
    }
}

/// The `i16` whose two's complement is `v`.
pub fn i16_from_bits(v: u128) -> (x: i16)
    requires
        v < pow256(2),
    ensures
        x == to_signed(v as nat, 2),
{
    proof {
        lemma_pow256_values();
    }
    if v >= 0x8000 {
        (v as i32 - 0x1_0000) as i16
    } else {
        v as i16
    }
}

/// The two's complement of an `i32`.
pub fn i32_to_bits(x: i32) -> (v: u128)
    ensures
        v == to_unsigned(x as int, 4),
        v < pow256(4),
{
    proof {
        lemma_pow256_values();
    }
    if x >= 0 {
        x as u128
    } else {
        (x as i64 + 0x1_0000_0000) as u128
    }
}

/// The `i32` whose two's complement is `v`.
pub fn i32_from_bits(v: u128) -> (x: i32)
    requires
        v < pow256(4),
    ensures
        x == to_signed(v as nat, 4),
{
    proof {
        lemma_pow256_values();
    }
    if v >= 0x8000_0000 {
        (v as i64 - 0x1_0000_0000) as i32
    } else {
        v as i32
    }
}

/// The two's complement of an `i64`.
pub fn i64_to_bits(x: i64) -> (v: u128)
    ensures
        v == to_unsigned(x as int, 8),
        v < pow256(8),
{
    proof {
        lemma_pow256_values();
    }
    if x >= 0 {
        x as u128
    } else {
        (x as i128 + 0x1_0000_0000_0000_0000) as u128
    }
}

/// The `i64` whose two's complement is `v`.
pub fn i64_from_bits(v: u128) -> (x: i64)
    requires
        v < pow256(8),
    ensures
        x == to_signed(v as nat, 8),
{
    proof {
        lemma_pow256_values();
    }
    if v >= 0x8000_0000_0000_0000 {
        (v as i128 - 0x1_0000_0000_0000_0000) as i64
    } else {
        v as i64
    }
}

/// The two's complement of an `i128`.
pub fn i128_to_bits(x: i128) -> (v: u128)
    ensures
        v == to_unsigned(x as int, 16),
        v < pow256(16),
{
    proof {
        lemma_pow256_values();
    }
    if x >= 0 {
        x as u128
    } else {
        (x - i128::MIN) as u128 + 0x8000_0000_0000_0000_0000_0000_0000_0000
    }
}

/// The `i128` whose two's complement is `v`.
pub fn i128_from_bits(v: u128) -> (x: i128)
    ensures
        x == to_signed(v as nat, 16),
{
    proof {
        lemma_pow256_values();
    }
    if v >= 0x8000_0000_0000_0000_0000_0000_0000_0000 {
        (v - 0x8000_0000_0000_0000_0000_0000_0000_0000) as i128 + i128::MIN
    } else {
        v as i128
    }
}

} // verus!
