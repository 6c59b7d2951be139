use hdfs_connection::checksum::{
    check_chunks, checksum, compare_first, ChecksumAlgorithm, ChunkCheck,
};

fn sums(algorithm: ChecksumAlgorithm, chunks: &[&[u8]]) -> Vec<u8> {
    let mut r = Vec::new();
    for chunk in chunks {
        r.extend(checksum(algorithm, chunk).to_be_bytes());
    }
    r
}

#[test]
fn the_check_values_of_the_algorithms() {
    assert_eq!(checksum(ChecksumAlgorithm::Crc32, b"123456789"), 0x765e_7680);
    assert_eq!(checksum(ChecksumAlgorithm::Crc32c, b"123456789"), 0xe306_9283);
    assert_eq!(checksum(ChecksumAlgorithm::Crc32c, b""), 0);
}

#[test]
fn data_passes_its_own_checksums() {
    for algorithm in [ChecksumAlgorithm::Crc32, ChecksumAlgorithm::Crc32c] {
        let stored = sums(algorithm, &[b"abc", b"def", b"g"]);
        assert_eq!(check_chunks(algorithm, b"abcdefg", &stored, 3), ChunkCheck::Verified);
        let mut more = stored.clone();
        more.push(7);
        assert_eq!(check_chunks(algorithm, b"abcdefg", &more, 3), ChunkCheck::Verified);
    }
}

#[test]
fn other_checksums_do_not_pass() {
    let mut stored = sums(ChecksumAlgorithm::Crc32c, &[b"abc", b"def"]);
    stored[5] ^= 1;
    assert_eq!(
        check_chunks(ChecksumAlgorithm::Crc32c, b"abcdef", &stored, 3),
        ChunkCheck::Mismatch
    );
    assert_eq!(
        check_chunks(ChecksumAlgorithm::Crc32, b"abc", &stored, 3),
        ChunkCheck::Mismatch
    );
}

#[test]
fn a_chunk_without_a_checksum() {
    let stored = sums(ChecksumAlgorithm::Crc32c, &[b"abc"]);
    assert_eq!(
        check_chunks(ChecksumAlgorithm::Crc32c, b"abcd", &stored, 3),
        ChunkCheck::OutOfChecksums
    );
    assert_eq!(
        check_chunks(ChecksumAlgorithm::Crc32c, b"abcd", &stored[..3], 3),
        ChunkCheck::OutOfChecksums
    );
    assert_eq!(check_chunks(ChecksumAlgorithm::Crc32c, b"", b"", 3), ChunkCheck::Verified);
}

#[test]
fn chunks_of_no_bytes_use_the_checksums_up() {
    assert_eq!(
        check_chunks(ChecksumAlgorithm::Crc32c, b"abc", &[0; 12], 0),
        ChunkCheck::OutOfChecksums
    );
    assert_eq!(
        check_chunks(ChecksumAlgorithm::Crc32c, b"abc", &[0, 0, 0, 0, 0, 0, 0, 1], 0),
        ChunkCheck::Mismatch
    );
}

#[test]
fn the_first_checksum_is_compared() {
    assert_eq!(compare_first(0x0102_0304, &[1, 2, 3, 4, 5]), Some(true));
    assert_eq!(compare_first(0x0102_0304, &[1, 2, 3, 5]), Some(false));
    assert_eq!(compare_first(0x0102_0304, &[1, 2, 3]), None);
}

/// The checksum bit by bit.
fn bit_by_bit(algorithm: ChecksumAlgorithm, data: &[u8]) -> u32 {
    let mut register: u32 = match algorithm {
        ChecksumAlgorithm::Crc32 => 0,
        ChecksumAlgorithm::Crc32c => 0xffff_ffff,
    };
    for byte in data {
        match algorithm {
            ChecksumAlgorithm::Crc32 => register ^= (*byte as u32) << 24,
            ChecksumAlgorithm::Crc32c => register ^= *byte as u32,
        }
        for _ in 0..8 {
            register = match algorithm {
                ChecksumAlgorithm::Crc32 if register & 0x8000_0000 != 0 => {
                    (register << 1) ^ 0x04c1_1db7
                }
                ChecksumAlgorithm::Crc32 => register << 1,
                ChecksumAlgorithm::Crc32c if register & 1 != 0 => (register >> 1) ^ 0x82f6_3b78,
                ChecksumAlgorithm::Crc32c => register >> 1,
            };
        }
    }
    register ^ 0xffff_ffff
}

#[test]
fn checksums_are_those_bit_by_bit() {
    let mut data: Vec<u8> = Vec::new();
    for n in 0..600u32 {
        for algorithm in [ChecksumAlgorithm::Crc32, ChecksumAlgorithm::Crc32c] {
            assert_eq!(checksum(algorithm, &data), bit_by_bit(algorithm, &data));
        }
        data.push((n * 167 + n / 7) as u8);
    }
    for byte in 0..=255u8 {
        for algorithm in [ChecksumAlgorithm::Crc32, ChecksumAlgorithm::Crc32c] {
            assert_eq!(checksum(algorithm, &[byte]), bit_by_bit(algorithm, &[byte]));
        }
    }
}

#[test]
fn every_changed_byte_is_noticed() {
    for algorithm in [ChecksumAlgorithm::Crc32, ChecksumAlgorithm::Crc32c] {
        let data = b"abcdefg".to_vec();
        let stored = sums(algorithm, &[b"abc", b"def", b"g"]);
        for change in 1..=255u8 {
            for i in 0..data.len() {
                let mut changed = data.clone();
                changed[i] ^= change;
                assert_eq!(check_chunks(algorithm, &changed, &stored, 3), ChunkCheck::Mismatch);
            }
            for i in 0..stored.len() {
                let mut changed = stored.clone();
                changed[i] ^= change;
                assert_eq!(check_chunks(algorithm, &data, &changed, 3), ChunkCheck::Mismatch);
            }
        }
    }
}
