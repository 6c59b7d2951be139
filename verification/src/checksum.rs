//! Checksums over chunks of data.

use vstd::prelude::*;
use crate::integers::{
    be32, be_bytes, be_value, lemma_be_bytes_of_value, lemma_be_round_trip, pow256,
};

verus! {

/// The number of bytes of one checksum.
pub const CHECKSUM_BYTES: usize = 4;

/// How checksums are computed.
#[derive(Clone, Copy, Debug, PartialEq, Eq, Structural)]
pub enum ChecksumAlgorithm {
    Crc32,
    Crc32c,
}

/// The register after one more bit, where the highest bit goes first: what falls out at the top
/// decides whether the polynomial is added.
pub open spec fn shifted_up(register: u32) -> u32 {
    if register & 0x8000_0000 != 0 {
        (register << 1) ^ 0x04c1_1db7
    } else {
        register << 1
    }
}

/// The register after one more bit, where the lowest bit goes first: what falls out at the bottom
/// decides whether the polynomial is added. The polynomial is `0x1edc_6f41` with its bits in the
/// reverse order.
pub open spec fn shifted_down(register: u32) -> u32 {
    if register & 1 != 0 {
        (register >> 1) ^ 0x82f6_3b78
    } else {
        register >> 1
    }
}

/// The register after `n` more bits.
pub open spec fn shifted(algorithm: ChecksumAlgorithm, register: u32, n: nat) -> u32
    decreases n,
{
    if n == 0 {
        register
    } else {
        let before = shifted(algorithm, register, (n - 1) as nat);
        match algorithm {
            ChecksumAlgorithm::Crc32 => shifted_up(before),
            ChecksumAlgorithm::Crc32c => shifted_down(before),
        }
    }
}

/// The register with a byte added, at the end that falls out first.
pub open spec fn with_byte(algorithm: ChecksumAlgorithm, register: u32, byte: u8) -> u32 {
    match algorithm {
        ChecksumAlgorithm::Crc32 => register ^ ((byte as u32) << 24),
        ChecksumAlgorithm::Crc32c => register ^ (byte as u32),
    }
}

/// The register after all of `data`.
pub open spec fn register_after(algorithm: ChecksumAlgorithm, data: Seq<u8>) -> u32
    decreases data.len(),
{
    if data.len() == 0 {
        match algorithm {
            ChecksumAlgorithm::Crc32 => 0,
            ChecksumAlgorithm::Crc32c => 0xffff_ffff,
        }
    } else {
        let before = register_after(algorithm, data.drop_last());
        shifted(algorithm, with_byte(algorithm, before, data.last()), 8)
    }
}

/// The checksum of `data`: the register after all of it, with every bit flipped.
pub open spec fn checksum_of(algorithm: ChecksumAlgorithm, data: Seq<u8>) -> u32 {
    register_after(algorithm, data) ^ 0xffff_ffff
}

/// Calls `Crc::new`, which makes the table of the algorithm `CRC_32_CKSUM`, and `Crc::checksum`.
/// The algorithm has 32 bits, the polynomial `0x04c1_1db7` and the start value 0, takes the
/// highest bit of each byte first, and flips every bit at the end.
#[verifier::external_body]
fn cksum(data: &[u8]) -> (r: u32)
    ensures
        r == checksum_of(ChecksumAlgorithm::Crc32, data@),
{
    crc::Crc::<u32>::new(&crc::CRC_32_CKSUM).checksum(data)
}

/// Calls `Crc::new`, which makes the table of the algorithm `CRC_32_ISCSI`, and `Crc::checksum`.
/// The algorithm has 32 bits, the polynomial `0x1edc_6f41` and the start value `0xffff_ffff`,
/// takes the lowest bit of each byte first, and flips every bit at the end.
#[verifier::external_body]
fn iscsi(data: &[u8]) -> (r: u32)
    ensures
        r == checksum_of(ChecksumAlgorithm::Crc32c, data@),
{
    crc::Crc::<u32>::new(&crc::CRC_32_ISCSI).checksum(data)
}

/// The checksum of `data`.
pub fn checksum(algorithm: ChecksumAlgorithm, data: &[u8]) -> (r: u32)
    ensures
        r == checksum_of(algorithm, data@),
{
    match algorithm {
        ChecksumAlgorithm::Crc32 => cksum(data),
        ChecksumAlgorithm::Crc32c => iscsi(data),
    }
}

/// The length of the first chunk of `len` bytes, where chunks have `size` bytes but for a last
/// one that may have fewer.
pub open spec fn first_chunk(len: nat, size: nat) -> nat {
    if size < len {
        size
    } else {
        len
    }
}

/// The number of chunks of `len` bytes.
pub open spec fn chunk_count(len: nat, size: nat) -> nat
    decreases len,
{
    if len == 0 || size == 0 {
        0
    } else {
        1 + chunk_count((len - first_chunk(len, size)) as nat, size)
    }
}

/// The checksums of all chunks of `data`, one after the other, each with its highest byte first.
pub open spec fn chunk_checksums(algorithm: ChecksumAlgorithm, data: Seq<u8>, size: nat) -> Seq<u8>
    decreases data.len(),
{
    if data.len() == 0 || size == 0 {
        Seq::empty()
    } else {
        let n = first_chunk(data.len(), size) as int;
        be_bytes(checksum_of(algorithm, data.take(n)) as nat, 4) + chunk_checksums(
            algorithm,
            data.skip(n),
            size,
        )
    }
}

/// What comes of comparing chunks with their checksums.
#[derive(Clone, Copy, Debug, PartialEq, Eq, Structural)]
pub enum ChunkCheck {
    /// Every chunk has its checksum.
    Verified,
    /// A chunk does not match its checksum.
    Mismatch,
    /// There are more chunks than checksums, and those that there are match.
    OutOfChecksums,
}

/// Whether the first of the checksums is `sum`. `None` where there is none.
pub open spec fn first_is(sum: u32, checksums: Seq<u8>) -> Option<bool> {
    if checksums.len() < 4 {
        None
    } else {
        Some(sum == be_value(checksums.take(4)))
    }
}

/// Compares the first of the checksums with `sum`. `None` where there is none.
pub fn compare_first(sum: u32, checksums: &[u8]) -> (r: Option<bool>)
    ensures
        r == first_is(sum, checksums@),
{
    if checksums.len() < CHECKSUM_BYTES {
        return None;
    }
    let stored = [checksums[0], checksums[1], checksums[2], checksums[3]];
    assert(stored@ =~= checksums@.take(4));
    Some(sum == be32(stored))
}

/// What comes of comparing the chunks of `data` with `checksums`, from the first one on.
pub open spec fn check_of(
    algorithm: ChecksumAlgorithm,
    data: Seq<u8>,
    checksums: Seq<u8>,
    size: nat,
) -> ChunkCheck
    decreases checksums.len(),
{
    if data.len() == 0 {
        ChunkCheck::Verified
    } else {
        let n = first_chunk(data.len(), size) as int;
        match first_is(checksum_of(algorithm, data.take(n)), checksums) {
            None => ChunkCheck::OutOfChecksums,
            Some(false) => ChunkCheck::Mismatch,
            Some(true) => check_of(algorithm, data.skip(n), checksums.skip(4), size),
        }
    }
}

/// Compares the chunks of `data` with `checksums`, from the first one on.
pub fn check_chunks(algorithm: ChecksumAlgorithm, data: &[u8], checksums: &[u8], size: usize) -> (r:
    ChunkCheck)
    ensures
        r == check_of(algorithm, data@, checksums@, size as nat),
{
    let mut at: usize = 0;
    let mut sum_at: usize = 0;
    proof {
        assert(data@.skip(0) =~= data@);
        assert(checksums@.skip(0) =~= checksums@);
    }
    while at < data.len()
        invariant
            at <= data@.len(),
            sum_at <= checksums@.len(),
            check_of(algorithm, data@, checksums@, size as nat) == check_of(
                algorithm,
                data@.skip(at as int),
                checksums@.skip(sum_at as int),
                size as nat,
            ),
        decreases checksums@.len() - sum_at,
    {
        let end: usize = if size < data.len() - at { at + size } else { data.len() };
        let chunk = vstd::slice::slice_subrange(data, at, end);
        let left = vstd::slice::slice_subrange(checksums, sum_at, checksums.len());
        proof {
            let n = first_chunk((data@.len() - at) as nat, size as nat);
            assert(end == at + n);
            assert(chunk@ =~= data@.skip(at as int).take(n as int));
            assert(left@ =~= checksums@.skip(sum_at as int));
            assert(data@.skip(at as int).skip(n as int) =~= data@.skip(end as int));
            if left@.len() >= 4 {
                assert(left@.skip(4) =~= checksums@.skip(sum_at + 4));
            }
        }
        match compare_first(checksum(algorithm, chunk), left) {
            None => {
                return ChunkCheck::OutOfChecksums;
            },
            Some(equal) => {
                if !equal {
                    return ChunkCheck::Mismatch;
                }
            },
        }
        at = end;
        sum_at += CHECKSUM_BYTES;
    }
    ChunkCheck::Verified
}

/// The checksums of all chunks take four bytes each.
pub proof fn lemma_chunk_checksums_len(algorithm: ChecksumAlgorithm, data: Seq<u8>, size: nat)
    ensures
        chunk_checksums(algorithm, data, size).len() == 4 * chunk_count(data.len(), size),
    decreases data.len(),
{
    if data.len() > 0 && size > 0 {
        let n = first_chunk(data.len(), size) as int;
        lemma_chunk_checksums_len(algorithm, data.skip(n), size);
        reveal_with_fuel(pow256, 5);
        lemma_be_round_trip(checksum_of(algorithm, data.take(n)) as nat, 4);
    }
}

/// The number of chunks, by division.
pub proof fn lemma_chunk_count(len: nat, size: nat)
    requires
        len > 0,
        size > 0,
    ensures
        chunk_count(len, size) == (len - 1) / (size as int) + 1,
    decreases len,
{
    if size < len {
        lemma_chunk_count((len - size) as nat, size);
        assert((len - size - 1) / (size as int) == (len - 1) / (size as int) - 1)
            by (nonlinear_arith)
            requires
                0 < size < len,
        ;
    } else {
        assert(chunk_count(0, size) == 0);
        assert((len - 1) / (size as int) == 0) by (nonlinear_arith)
            requires
                0 < len <= size,
        ;
    }
}

/// Data of at most `n` full chunks has at most `n` chunks.
pub proof fn lemma_chunk_count_bound(len: nat, size: nat, n: nat)
    requires
        len <= n * size,
    ensures
        chunk_count(len, size) <= n,
    decreases len,
{
    if len > 0 && size > 0 {
        if n == 0 {
            assert(n * size == 0) by (nonlinear_arith)
                requires
                    n == 0,
            ;
        }
        assert((n - 1) * size == n * size - size) by (nonlinear_arith);
        if size < len {
            lemma_chunk_count_bound((len - size) as nat, size, (n - 1) as nat);
        } else {
            assert(chunk_count(0, size) == 0);
        }
    }
}

// Laws

/// Data passes the check against its own checksums, whatever follows those.
pub proof fn law_data_passes_its_own_checksums(
    algorithm: ChecksumAlgorithm,
    data: Seq<u8>,
    size: nat,
    rest: Seq<u8>,
)
    requires
        data.len() == 0 || size > 0,
    ensures
        check_of(algorithm, data, chunk_checksums(algorithm, data, size) + rest, size)
            == ChunkCheck::Verified,
    decreases data.len(),
{
    if data.len() > 0 {
        let n = first_chunk(data.len(), size) as int;
        let sum = be_bytes(checksum_of(algorithm, data.take(n)) as nat, 4);
        let others = chunk_checksums(algorithm, data.skip(n), size);
        let all = chunk_checksums(algorithm, data, size) + rest;
        reveal_with_fuel(pow256, 5);
        lemma_be_round_trip(checksum_of(algorithm, data.take(n)) as nat, 4);
        assert(all.take(4) =~= sum);
        assert(all.skip(4) =~= others + rest);
        law_data_passes_its_own_checksums(algorithm, data.skip(n), size, rest);
    }
}

/// Only the checksums of the data itself pass the check.
pub proof fn law_only_its_own_checksums_pass(
    algorithm: ChecksumAlgorithm,
    data: Seq<u8>,
    checksums: Seq<u8>,
    size: nat,
)
    requires
        check_of(algorithm, data, checksums, size) == ChunkCheck::Verified,
    ensures
        chunk_checksums(algorithm, data, size).is_prefix_of(checksums),
    decreases data.len(),
{
    if data.len() > 0 && size > 0 {
        let n = first_chunk(data.len(), size) as int;
        let sum = be_bytes(checksum_of(algorithm, data.take(n)) as nat, 4);
        let others = chunk_checksums(algorithm, data.skip(n), size);
        law_only_its_own_checksums_pass(algorithm, data.skip(n), checksums.skip(4), size);
        lemma_be_bytes_of_value(checksums.take(4));
        assert(sum == checksums.take(4));
        assert(chunk_checksums(algorithm, data, size) =~= sum + others);
        assert(sum + others =~= checksums.take((sum + others).len() as int)) by {
            assert(checksums =~= checksums.take(4) + checksums.skip(4));
        }
    }
}

/// `b` is `a` but for one byte.
pub open spec fn differ_in_one_byte(a: Seq<u8>, b: Seq<u8>) -> bool {
    &&& a.len() == b.len()
    &&& exists|i: int| #[trigger] differ_at(a, b, i)
}

/// `b` is `a` but for the byte at position `i`.
pub open spec fn differ_at(a: Seq<u8>, b: Seq<u8>, i: int) -> bool {
    &&& a.len() == b.len()
    &&& 0 <= i < a.len()
    &&& a[i] != b[i]
    &&& forall|j: int| 0 <= j < a.len() && j != i ==> #[trigger] a[j] == b[j]
}

/// Different registers stay different.
proof fn lemma_shifted_differ(algorithm: ChecksumAlgorithm, r: u32, s: u32, n: nat)
    requires
        r != s,
    ensures
        shifted(algorithm, r, n) != shifted(algorithm, s, n),
    decreases n,
{
    if n > 0 {
        lemma_shifted_differ(algorithm, r, s, (n - 1) as nat);
        let x = shifted(algorithm, r, (n - 1) as nat);
        let y = shifted(algorithm, s, (n - 1) as nat);
        assert(x != y ==> shifted_up(x) != shifted_up(y)) by (bit_vector);
        assert(x != y ==> shifted_down(x) != shifted_down(y)) by (bit_vector);
    }
}

/// Data that differs in one byte has different registers.
proof fn lemma_registers_differ(algorithm: ChecksumAlgorithm, a: Seq<u8>, b: Seq<u8>, i: int)
    requires
        differ_at(a, b, i),
    ensures
        register_after(algorithm, a) != register_after(algorithm, b),
    decreases a.len(),
{
    let r = register_after(algorithm, a.drop_last());
    let s = register_after(algorithm, b.drop_last());
    let x = a.last();
    let y = b.last();
    if i == a.len() - 1 {
        assert(a.drop_last() =~= b.drop_last());
        assert(x != y ==> r ^ ((x as u32) << 24) != r ^ ((y as u32) << 24)) by (bit_vector);
        assert(x != y ==> r ^ (x as u32) != r ^ (y as u32)) by (bit_vector);
    } else {
        lemma_registers_differ(algorithm, a.drop_last(), b.drop_last(), i);
        assert(r != s ==> r ^ ((x as u32) << 24) != s ^ ((x as u32) << 24)) by (bit_vector);
        assert(r != s ==> r ^ (x as u32) != s ^ (x as u32)) by (bit_vector);
    }
    lemma_shifted_differ(algorithm, with_byte(algorithm, r, x), with_byte(algorithm, s, y), 8);
}

/// Data that differs in one byte has different checksums.
pub proof fn law_one_byte_changes_the_checksum(
    algorithm: ChecksumAlgorithm,
    a: Seq<u8>,
    b: Seq<u8>,
)
    requires
        differ_in_one_byte(a, b),
    ensures
        checksum_of(algorithm, a) != checksum_of(algorithm, b),
{
    let i = choose|i: int| #[trigger] differ_at(a, b, i);
    lemma_registers_differ(algorithm, a, b, i);
    let r = register_after(algorithm, a);
    let s = register_after(algorithm, b);
    assert(r != s ==> r ^ 0xffff_ffff != s ^ 0xffff_ffff) by (bit_vector);
}

/// One changed byte of the data is noticed.
proof fn lemma_changed_data_is_noticed(
    algorithm: ChecksumAlgorithm,
    data: Seq<u8>,
    changed: Seq<u8>,
    checksums: Seq<u8>,
    size: nat,
    i: int,
)
    requires
        check_of(algorithm, data, checksums, size) == ChunkCheck::Verified,
        differ_at(data, changed, i),
    ensures
        check_of(algorithm, changed, checksums, size) == ChunkCheck::Mismatch,
    decreases checksums.len(),
{
    let n = first_chunk(data.len(), size) as int;
    if i < n {
        assert(differ_at(data.take(n), changed.take(n), i));
        law_one_byte_changes_the_checksum(algorithm, data.take(n), changed.take(n));
    } else {
        assert(data.take(n) =~= changed.take(n));
        assert(differ_at(data.skip(n), changed.skip(n), i - n));
        lemma_changed_data_is_noticed(
            algorithm,
            data.skip(n),
            changed.skip(n),
            checksums.skip(4),
            size,
            i - n,
        );
    }
}

/// One changed byte of the checksums is noticed.
proof fn lemma_changed_checksum_is_noticed(
    algorithm: ChecksumAlgorithm,
    data: Seq<u8>,
    checksums: Seq<u8>,
    changed: Seq<u8>,
    size: nat,
    i: int,
)
    requires
        check_of(algorithm, data, checksums, size) == ChunkCheck::Verified,
        differ_at(checksums, changed, i),
        i < 4 * chunk_count(data.len(), size),
    ensures
        check_of(algorithm, data, changed, size) == ChunkCheck::Mismatch,
    decreases checksums.len(),
{
    let n = first_chunk(data.len(), size) as int;
    if i < 4 {
        lemma_be_bytes_of_value(checksums.take(4));
        lemma_be_bytes_of_value(changed.take(4));
        assert(checksums.take(4)[i] != changed.take(4)[i]);
    } else {
        assert(checksums.take(4) =~= changed.take(4));
        assert(differ_at(checksums.skip(4), changed.skip(4), i - 4));
        lemma_changed_checksum_is_noticed(
            algorithm,
            data.skip(n),
            checksums.skip(4),
            changed.skip(4),
            size,
            i - 4,
        );
    }
}

/// Where data passes the check against as many checksums as it has chunks, and one byte of the
/// data or of the checksums is changed, the check fails.
pub proof fn law_one_changed_byte_is_noticed(
    algorithm: ChecksumAlgorithm,
    data: Seq<u8>,
    checksums: Seq<u8>,
    changed_data: Seq<u8>,
    changed_checksums: Seq<u8>,
    size: nat,
)
    requires
        check_of(algorithm, data, checksums, size) == ChunkCheck::Verified,
        checksums.len() == 4 * chunk_count(data.len(), size),
        changed_checksums.len() == checksums.len(),
        differ_in_one_byte(checksums + data, changed_checksums + changed_data),
    ensures
        check_of(algorithm, changed_data, changed_checksums, size) == ChunkCheck::Mismatch,
{
    let a = checksums + data;
    let b = changed_checksums + changed_data;
    let m = checksums.len() as int;
    let i = choose|i: int| #[trigger] differ_at(a, b, i);
    assert(a.take(m) =~= checksums && a.skip(m) =~= data);
    assert(b.take(m) =~= changed_checksums && b.skip(m) =~= changed_data);
    if i < m {
        assert(a.skip(m) =~= b.skip(m));
        assert(differ_at(a.take(m), b.take(m), i));
        lemma_changed_checksum_is_noticed(algorithm, data, checksums, changed_checksums, size, i);
    } else {
        assert(a.take(m) =~= b.take(m));
        assert(differ_at(a.skip(m), b.skip(m), i - m));
        lemma_changed_data_is_noticed(algorithm, data, changed_data, checksums, size, i - m);
    }
}

/// There is a checksum for every chunk, and the one at position `k` is that of the chunk at
/// position `k`: `size` bytes from the start of that chunk on, or as many as are left.
pub proof fn law_every_chunk_has_its_checksum(
    algorithm: ChecksumAlgorithm,
    data: Seq<u8>,
    size: nat,
    k: nat,
)
    requires
        size > 0,
        k * size < data.len(),
    ensures
        ({
            let sums = chunk_checksums(algorithm, data, size);
            let end = if (k + 1) * size < data.len() {
                (k + 1) * size
            } else {
                data.len()
            };
            let chunk = data.subrange((k * size) as int, end as int);
            &&& sums.len() == 4 * ((data.len() - 1) / (size as int) + 1)
            &&& 4 * k + 4 <= sums.len()
            &&& be_value(sums.skip((4 * k) as int).take(4)) == checksum_of(algorithm, chunk)
        }),
    decreases data.len(),
{
    let n = first_chunk(data.len(), size) as int;
    let sums = chunk_checksums(algorithm, data, size);
    let others = chunk_checksums(algorithm, data.skip(n), size);
    let sum = be_bytes(checksum_of(algorithm, data.take(n)) as nat, 4);
    reveal_with_fuel(pow256, 5);
    lemma_be_round_trip(checksum_of(algorithm, data.take(n)) as nat, 4);
    assert(k * size >= 0) by (nonlinear_arith);
    lemma_chunk_count(data.len(), size);
    lemma_chunk_checksums_len(algorithm, data, size);
    if k == 0 {
        assert(k * size == 0 && (k + 1) * size == size) by (nonlinear_arith)
            requires
                k == 0,
        ;
        assert(data.subrange(0, n) =~= data.take(n));
        assert(sums.skip(0).take(4) =~= sum);
    } else {
        assert(k * size >= size) by (nonlinear_arith)
            requires
                k > 0,
        ;
        assert((k - 1) * size == k * size - size) by (nonlinear_arith);
        assert((k + 1) * size == k * size + size) by (nonlinear_arith);
        let j = (k - 1) as nat;
        assert((j + 1) * size == k * size) by (nonlinear_arith)
            requires
                j == k - 1,
        ;
        law_every_chunk_has_its_checksum(algorithm, data.skip(n), size, j);
        let end = if (k + 1) * size < data.len() {
            (k + 1) * size
        } else {
            data.len()
        };
        assert(data.skip(n).subrange((j * size) as int, end - n) =~= data.subrange(
            (k * size) as int,
            end as int,
        ));
        assert(sums.skip((4 * k) as int).take(4) =~= others.skip((4 * j) as int).take(4));
    }
}

/// The checksums that there are, as far as there are chunks for them: whole ones only.
pub open spec fn compared(sums: Seq<u8>, checksums: Seq<u8>) -> int {
    if checksums.len() < sums.len() {
        (checksums.len() / 4 * 4) as int
    } else {
        sums.len() as int
    }
}

/// Data passes the check where the stored checksums start with its own. It fails where one of
/// them differs that is there, and runs out of them where all that are there match, but there are
/// too few. In chunks of no bytes, data never passes.
pub proof fn law_check_compares_with_the_own_checksums(
    algorithm: ChecksumAlgorithm,
    data: Seq<u8>,
    checksums: Seq<u8>,
    size: nat,
)
    ensures
        size > 0 ==> {
            let sums = chunk_checksums(algorithm, data, size);
            let m = compared(sums, checksums);
            let check = check_of(algorithm, data, checksums, size);
            &&& check == ChunkCheck::Verified <==> sums.is_prefix_of(checksums)
            &&& check == ChunkCheck::Mismatch <==> sums.take(m) != checksums.take(m)
            &&& check == ChunkCheck::OutOfChecksums <==> checksums.len() < sums.len() && sums.take(
                m,
            ) == checksums.take(m)
        },
        data.len() == 0 ==> check_of(algorithm, data, checksums, size) == ChunkCheck::Verified,
        size == 0 && data.len() > 0 ==> check_of(algorithm, data, checksums, size)
            != ChunkCheck::Verified,
    decreases checksums.len(),
{
    let sums = chunk_checksums(algorithm, data, size);
    let m = compared(sums, checksums);
    let n = first_chunk(data.len(), size) as int;
    lemma_chunk_checksums_len(algorithm, data, size);
    if data.len() == 0 {
        assert(sums.take(m) =~= checksums.take(m));
        assert(sums =~= checksums.take(0));
    } else if size == 0 {
        if checksums.len() >= 4 {
            law_check_compares_with_the_own_checksums(
                algorithm,
                data.skip(n),
                checksums.skip(4),
                size,
            );
        }
    } else {
        let sum = be_bytes(checksum_of(algorithm, data.take(n)) as nat, 4);
        let others = chunk_checksums(algorithm, data.skip(n), size);
        reveal_with_fuel(pow256, 5);
        lemma_be_round_trip(checksum_of(algorithm, data.take(n)) as nat, 4);
        lemma_chunk_checksums_len(algorithm, data.skip(n), size);
        assert(sums =~= sum + others);
        if checksums.len() < 4 {
            assert(m == 0);
            assert(sums.take(0) =~= checksums.take(0));
        } else {
            let left = checksums.skip(4);
            let rest = compared(others, left);
            law_check_compares_with_the_own_checksums(algorithm, data.skip(n), left, size);
            assert(m == 4 + rest);
            assert(checksums =~= checksums.take(4) + left);
            lemma_be_bytes_of_value(checksums.take(4));
            assert(sums.take(m) =~= sum + others.take(rest));
            assert(checksums.take(m) =~= checksums.take(4) + left.take(rest));
            assert((sum + others.take(rest)).take(4) =~= sum);
            assert((checksums.take(4) + left.take(rest)).take(4) =~= checksums.take(4));
            assert((sum + others.take(rest)).skip(4) =~= others.take(rest));
            assert((checksums.take(4) + left.take(rest)).skip(4) =~= left.take(rest));
            if sums.is_prefix_of(checksums) {
                let len = sums.len() as int;
                assert(checksums.take(len).take(4) =~= checksums.take(4));
                assert(sums.take(4) =~= sum);
                assert(checksums.take(len).skip(4) =~= left.take(others.len() as int));
                assert(sums.skip(4) =~= others);
            }
            if sum == checksums.take(4) && others.is_prefix_of(left) {
                assert(checksums.take(sums.len() as int) =~= sum + left.take(others.len() as int));
            }
        }
    }
}

/// A stored checksum is compared as a number with its highest byte first.
pub proof fn law_stored_checksums_are_numbers(sum: u32, other: u32, rest: Seq<u8>)
    ensures
        first_is(sum, be_bytes(other as nat, 4) + rest) == Some(sum == other),
        rest.len() < 4 ==> first_is(sum, rest) is None,
{
    reveal_with_fuel(pow256, 5);
    lemma_be_round_trip(other as nat, 4);
    assert((be_bytes(other as nat, 4) + rest).take(4) =~= be_bytes(other as nat, 4));
}

} // verus!
