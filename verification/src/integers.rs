//! Integers as bytes: of fixed width in either byte order, and signed ones as unsigned.

use vstd::prelude::*;

verus! {

// Integers of fixed width

/// The `n` lowest bytes of `v`, the lowest first.
pub open spec fn le_bytes(v: nat, n: nat) -> Seq<u8>
    decreases n,
{
    if n == 0 {
        Seq::empty()
    } else {
        seq![(v % 256) as u8] + le_bytes(v / 256, (n - 1) as nat)
    }
}

/// The number whose bytes are `s`, the lowest first.
pub open spec fn le_value(s: Seq<u8>) -> nat
    decreases s.len(),
{
    if s.len() == 0 {
        0
    } else {
        s[0] as nat + 256 * le_value(s.skip(1))
    }
}

/// The `n` lowest bytes of `v`, the highest first.
pub open spec fn be_bytes(v: nat, n: nat) -> Seq<u8>
    decreases n,
{
    if n == 0 {
        Seq::empty()
    } else {
        be_bytes(v / 256, (n - 1) as nat).push((v % 256) as u8)
    }
}

/// The number whose bytes are `s`, the highest first.
pub open spec fn be_value(s: Seq<u8>) -> nat
    decreases s.len(),
{
    if s.len() == 0 {
        0
    } else {
        be_value(s.drop_last()) * 256 + s.last() as nat
    }
}

/// The number of values that `n` bytes can have.
pub open spec fn pow256(n: nat) -> nat
    decreases n,
{
    if n == 0 {
        1
    } else {
        256 * pow256((n - 1) as nat)
    }
}

/// The bytes of a number that fits spell that number.
pub proof fn lemma_le_round_trip(v: nat, n: nat)
    requires
        v < pow256(n),
    ensures
        le_bytes(v, n).len() == n,
        le_value(le_bytes(v, n)) == v,
    decreases n,
{
    if n > 0 {
        lemma_le_round_trip(v / 256, (n - 1) as nat);
        assert(le_bytes(v, n).skip(1) =~= le_bytes(v / 256, (n - 1) as nat));
    }
}

/// The bytes of a number that fits spell that number.
pub proof fn lemma_be_round_trip(v: nat, n: nat)
    requires
        v < pow256(n),
    ensures
        be_bytes(v, n).len() == n,
        be_value(be_bytes(v, n)) == v,
    decreases n,
{
    if n > 0 {
        lemma_be_round_trip(v / 256, (n - 1) as nat);
        assert(be_bytes(v, n).drop_last() =~= be_bytes(v / 256, (n - 1) as nat));
    }
}

/// The number that some bytes spell has those bytes.
pub proof fn lemma_be_bytes_of_value(s: Seq<u8>)
    ensures
        be_bytes(be_value(s), s.len()) == s,
    decreases s.len(),
{
    if s.len() > 0 {
        lemma_be_bytes_of_value(s.drop_last());
        assert(be_value(s) / 256 == be_value(s.drop_last()));
    }
    assert(be_bytes(be_value(s), s.len()) =~= s);
}

/// The number that some bytes spell fits in as many bytes.
pub proof fn lemma_le_value_bound(s: Seq<u8>)
    ensures
        le_value(s) < pow256(s.len()),
    decreases s.len(),
{
    if s.len() > 0 {
        lemma_le_value_bound(s.skip(1));
    }
}

/// Appends the four bytes of `v`, the highest first.
pub fn put_be32(buf: &mut Vec<u8>, v: u32)
    ensures
        final(buf)@ == old(buf)@ + be_bytes(v as nat, 4),
{
    buf.push((v / 0x100_0000) as u8);
    buf.push((v / 0x1_0000 % 0x100) as u8);
    buf.push((v / 0x100 % 0x100) as u8);
    buf.push((v % 0x100) as u8);
    proof {
        reveal_with_fuel(be_bytes, 5);
        assert(buf@ =~= old(buf)@ + be_bytes(v as nat, 4));
    }
}

/// Appends the two bytes of `v`, the highest first.
pub fn put_be16(buf: &mut Vec<u8>, v: u16)
    ensures
        final(buf)@ == old(buf)@ + be_bytes(v as nat, 2),
{
    buf.push((v / 0x100) as u8);
    buf.push((v % 0x100) as u8);
    proof {
        reveal_with_fuel(be_bytes, 3);
        assert(buf@ =~= old(buf)@ + be_bytes(v as nat, 2));
    }
}

/// The number whose four bytes are given, the highest first.
pub fn be32(b: [u8; 4]) -> (v: u32)
    ensures
        v == be_value(b@),
{
    proof {
        reveal_with_fuel(be_value, 5);
    }
    b[0] as u32 * 0x100_0000 + b[1] as u32 * 0x1_0000 + b[2] as u32 * 0x100 + b[3] as u32
}

/// The number whose two bytes are given, the highest first.
pub fn be16(b: [u8; 2]) -> (v: u16)
    ensures
        v == be_value(b@),
{
    proof {
        reveal_with_fuel(be_value, 3);
    }
    b[0] as u16 * 0x100 + b[1] as u16
}

/// Appends the eight bytes of `v`, the lowest first.
pub fn put_le64(buf: &mut Vec<u8>, v: u64)
    ensures
        final(buf)@ == old(buf)@ + le_bytes(v as nat, 8),
{
    put_le(buf, v, 8);
}

/// Appends the four bytes of `v`, the lowest first.
pub fn put_le32(buf: &mut Vec<u8>, v: u32)
    ensures
        final(buf)@ == old(buf)@ + le_bytes(v as nat, 4),
{
    put_le(buf, v as u64, 4);
}

fn put_le(buf: &mut Vec<u8>, v: u64, n: usize)
    ensures
        final(buf)@ == old(buf)@ + le_bytes(v as nat, n as nat),
{
    let ghost start = buf@;
    let mut left: u64 = v;
    let mut i: usize = 0;
    while i < n
        invariant
            i <= n,
            start + le_bytes(v as nat, n as nat) == buf@ + le_bytes(left as nat, (n - i) as nat),
        decreases n - i,
    {
        let ghost before = buf@;
        buf.push((left % 256) as u8);
        proof {
            assert(buf@ + le_bytes(left as nat / 256, (n - i - 1) as nat)
                =~= before + le_bytes(left as nat, (n - i) as nat));
        }
        left = left / 256;
        i += 1;
    }
    assert(buf@ + le_bytes(left as nat, 0) =~= buf@);
}

/// The number that the first eight bytes spell, the lowest first.
pub fn get_le64(buf: &[u8]) -> (v: u64)
    requires
        buf@.len() >= 8,
    ensures
        v == le_value(buf@.take(8)),
{
    get_le(buf, 8)
}

/// The number that the first four bytes spell, the lowest first.
pub fn get_le32(buf: &[u8]) -> (v: u32)
    requires
        buf@.len() >= 4,
    ensures
        v == le_value(buf@.take(4)),
{
    proof {
        lemma_le_value_bound(buf@.take(4));
        reveal_with_fuel(pow256, 5);
    }
    get_le(buf, 4) as u32
}

/// The number that the first `n` bytes spell, the lowest first.
fn get_le(buf: &[u8], n: usize) -> (v: u64)
    requires
        n <= 8,
        n <= buf@.len(),
    ensures
        v == le_value(buf@.take(n as int)),
{
    let mut v: u64 = 0;
    let mut i: usize = n;
    proof {
        reveal_with_fuel(pow256, 9);
        assert(buf@.subrange(n as int, n as int) =~= Seq::<u8>::empty());
    }
    while i > 0
        invariant
            i <= n <= 8,
            n <= buf@.len(),
            v == le_value(buf@.subrange(i as int, n as int)),
        decreases i,
    {
        i -= 1;
        proof {
            let s = buf@.subrange(i as int, n as int);
            assert(s.skip(1) =~= buf@.subrange(i + 1, n as int));
            lemma_le_value_bound(s);
            lemma_le_value_bound(s.skip(1));
            reveal_with_fuel(pow256, 9);
            assert(v < pow256((n - i - 1) as nat));
            assert(pow256((n - i - 1) as nat) <= pow256(7)) by {
                lemma_pow256_monotone((n - i - 1) as nat, 7);
            }
        }
        v = v * 256 + buf[i] as u64;
    }
    assert(buf@.subrange(0, n as int) =~= buf@.take(n as int));
    v
}

proof fn lemma_pow256_monotone(a: nat, b: nat)
    requires
        a <= b,
    ensures
        1 <= pow256(a) <= pow256(b),
    decreases b,
{
    if b > 0 {
        if a == b {
            lemma_pow256_monotone((a - 1) as nat, (b - 1) as nat);
        } else {
            lemma_pow256_monotone(a, (b - 1) as nat);
        }
    }
}

// Signed integers

/// The two's complement of `v` in 64 bits.
pub open spec fn unsigned64(v: i64) -> u64 {
    if v >= 0 {
        v as u64
    } else {
        (v + 0x1_0000_0000_0000_0000) as u64
    }
}

/// The integer of which `v` is the two's complement in 64 bits.
pub open spec fn signed64(v: u64) -> i64 {
    if v < 0x8000_0000_0000_0000 {
        v as i64
    } else {
        (v - 0x1_0000_0000_0000_0000) as i64
    }
}

/// The two's complement of `v` in 32 bits.
pub open spec fn unsigned32(v: i32) -> u32 {
    if v >= 0 {
        v as u32
    } else {
        (v + 0x1_0000_0000) as u32
    }
}

/// The integer of which `v` is the two's complement in 32 bits.
pub open spec fn signed32(v: u32) -> i32 {
    if v < 0x8000_0000 {
        v as i32
    } else {
        (v - 0x1_0000_0000) as i32
    }
}

/// The number that stands for `v` where small absolute values are to stay small: twice `v`, or
/// one less than twice its absolute value.
pub open spec fn zigzag(v: i32) -> u32 {
    if v >= 0 {
        (2 * v) as u32
    } else {
        (-2 * v - 1) as u32
    }
}

/// The integer for which `v` stands.
pub open spec fn unzigzag(v: u32) -> i32 {
    if v % 2 == 0 {
        (v / 2) as i32
    } else {
        (-(v / 2) - 1) as i32
    }
}

/// The integer of 64 bits for which `v` stands.
pub open spec fn unzigzag64(v: u64) -> i64 {
    if v % 2 == 0 {
        (v / 2) as i64
    } else {
        (-(v / 2) - 1) as i64
    }
}

/// The low 32 bits of `v`.
pub open spec fn low32(v: u64) -> u32 {
    (v % 0x1_0000_0000) as u32
}

/// The number of 64 bits whose bits are those of `v`.
pub fn to_unsigned64(v: i64) -> (r: u64)
    ensures
        r == unsigned64(v),
{
    if v >= 0 {
        v as u64
    } else {
        u64::MAX - ((-(v + 1)) as u64)
    }
}

/// The number with a sign whose bits are those of `v`.
pub fn to_signed64(v: u64) -> (r: i64)
    ensures
        r == signed64(v),
{
    if v < 0x8000_0000_0000_0000 {
        v as i64
    } else {
        -((u64::MAX - v) as i64) - 1
    }
}

/// The number of 32 bits whose bits are those of `v`.
pub fn to_unsigned32(v: i32) -> (r: u32)
    ensures
        r == unsigned32(v),
{
    if v >= 0 {
        v as u32
    } else {
        u32::MAX - ((-(v + 1)) as u32)
    }
}

/// The number with a sign whose bits are those of `v`.
pub fn to_signed32(v: u32) -> (r: i32)
    ensures
        r == signed32(v),
{
    if v < 0x8000_0000 {
        v as i32
    } else {
        -((u32::MAX - v) as i32) - 1
    }
}

/// The number that stands for `v` where small absolute values are to stay small.
pub fn to_zigzag(v: i32) -> (r: u32)
    ensures
        r == zigzag(v),
{
    if v >= 0 {
        v as u32 * 2
    } else {
        (-(v + 1)) as u32 * 2 + 1
    }
}

/// The integer for which `v` stands.
pub fn from_zigzag(v: u32) -> (r: i32)
    ensures
        r == unzigzag(v),
{
    if v % 2 == 0 {
        (v / 2) as i32
    } else {
        -((v / 2) as i32) - 1
    }
}

/// The integer of 64 bits for which `v` stands.
pub fn from_zigzag64(v: u64) -> (r: i64)
    ensures
        r == unzigzag64(v),
{
    if v % 2 == 0 {
        (v / 2) as i64
    } else {
        -((v / 2) as i64) - 1
    }
}

/// The low 32 bits of `v`.
pub fn to_low32(v: u64) -> (r: u32)
    ensures
        r == low32(v),
{
    (v % 0x1_0000_0000) as u32
}

// Laws

/// Two bytes spell a number with the highest first, and a number has the bytes that spell it.
pub proof fn law_two_bytes(v: u16, a: u8, b: u8)
    ensures
        be_bytes(v as nat, 2) == seq![(v / 0x100) as u8, (v % 0x100) as u8],
        be_value(seq![a, b]) == a * 0x100 + b,
{
    reveal_with_fuel(be_bytes, 3);
    reveal_with_fuel(be_value, 3);
    assert(be_bytes(v as nat, 2) =~= seq![(v / 0x100) as u8, (v % 0x100) as u8]);
    assert(seq![a, b].drop_last() =~= seq![a]);
    assert(seq![a].drop_last() =~= Seq::empty());
}

/// Four bytes spell a number with the highest first, or with the lowest first, and a number has
/// the bytes that spell it.
pub proof fn law_four_bytes(v: u32, a: u8, b: u8, c: u8, d: u8)
    requires
        v == a * 0x100_0000 + b * 0x1_0000 + c * 0x100 + d,
    ensures
        be_bytes(v as nat, 4) == seq![a, b, c, d],
        be_value(seq![a, b, c, d]) == v,
        le_bytes(v as nat, 4) == seq![d, c, b, a],
        le_value(seq![d, c, b, a]) == v,
{
    reveal_with_fuel(be_bytes, 5);
    reveal_with_fuel(le_bytes, 5);
    reveal_with_fuel(pow256, 5);
    let n = v as nat;
    assert(n / 256 == a * 0x1_0000 + b * 0x100 + c && n % 256 == d);
    assert(n / 256 / 256 == a * 0x100 + b && n / 256 % 256 == c);
    assert(n / 256 / 256 / 256 == a && n / 256 / 256 % 256 == b);
    assert(be_bytes(n, 4) =~= seq![a, b, c, d]);
    assert(le_bytes(n, 4) =~= seq![d, c, b, a]);
    lemma_be_round_trip(n, 4);
    lemma_le_round_trip(n, 4);
}

/// Eight bytes with the lowest first are the four of the lower half and the four of the upper.
pub proof fn law_eight_bytes(low: u32, high: u32)
    ensures
        le_bytes((high * 0x1_0000_0000 + low) as nat, 8) == le_bytes(low as nat, 4) + le_bytes(
            high as nat,
            4,
        ),
        le_value(le_bytes(low as nat, 4) + le_bytes(high as nat, 4)) == high * 0x1_0000_0000 + low,
{
    reveal_with_fuel(le_bytes, 9);
    reveal_with_fuel(pow256, 9);
    let n = (high * 0x1_0000_0000 + low) as nat;
    let (l, h) = (low as nat, high as nat);
    assert(n / 256 / 256 / 256 / 256 == h);
    assert(n % 256 == l % 256);
    assert(n / 256 % 256 == l / 256 % 256);
    assert(n / 256 / 256 % 256 == l / 256 / 256 % 256);
    assert(n / 256 / 256 / 256 % 256 == l / 256 / 256 / 256 % 256);
    assert(le_bytes(n, 8) =~= le_bytes(l, 4) + le_bytes(h, 4));
    lemma_le_round_trip(n, 8);
}

/// A number with a sign and the one that has its bits are congruent, and each gives the other
/// back.
pub proof fn law_twos_complement(v: i32, w: i64)
    ensures
        (unsigned32(v) - v) % 0x1_0000_0000 == 0,
        signed32(unsigned32(v)) == v,
        (unsigned64(w) - w) % 0x1_0000_0000_0000_0000 == 0,
        signed64(unsigned64(w)) == w,
{
}

/// The low bits of a number are those that a shift by all of them loses.
pub proof fn law_low_bits(v: u64)
    ensures
        (v >> 32) * 0x1_0000_0000 + low32(v) == v,
        signed32(low32(unsigned64(signed64(v)))) == signed32(low32(v)),
{
    assert((v >> 32) * 0x1_0000_0000 + v % 0x1_0000_0000 == v) by (bit_vector);
}

/// The numbers that stand for integers count them outwards from 0: for each one that is not
/// negative comes its complement next. Each integer is given back.
pub proof fn law_zigzag(v: i32, w: i64)
    requires
        v >= 0,
        w >= 0,
    ensures
        zigzag(v) == v + v,
        zigzag((-v - 1) as i32) == zigzag(v) + 1,
        unzigzag(zigzag(v)) == v,
        unzigzag(zigzag((-v - 1) as i32)) == -v - 1,
        unzigzag64((w + w) as u64) == w,
        unzigzag64((w + w + 1) as u64) == -w - 1,
{
}

} // verus!
