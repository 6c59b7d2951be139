use bytes::{Bytes, BytesMut};
use hdfs_connection::checksum::{checksum, ChecksumAlgorithm, ChunkCheck};
use hdfs_connection::datanode_messages::{Checksum, ReadOpChecksumInfo};
use hdfs_connection::error::HdfsError;
use hdfs_connection::packet::{
    packet_lengths, read_packet, remaining_length, split_packet, write_packet, Packet,
    PacketFrame, PacketHeader, MAX_PACKET_HEADER_SIZE,
};

fn info(checksum_type: i32, bytes_per_checksum: u32) -> Option<ReadOpChecksumInfo> {
    Some(ReadOpChecksumInfo {
        checksum: Checksum { checksum_type, bytes_per_checksum },
        chunk_offset: 0,
    })
}

fn sent(frame: &PacketFrame) -> Vec<u8> {
    let mut r = frame.head.clone();
    r.extend_from_slice(&frame.checksum);
    r.extend_from_slice(&frame.data);
    r
}

fn received(bytes: &[u8]) -> Result<Option<Packet>, HdfsError> {
    let payload: [u8; 4] = bytes[..4].try_into().unwrap();
    let header: [u8; 2] = bytes[4..6].try_into().unwrap();
    let (payload_length, header_length) = packet_lengths(payload, header);
    let n = remaining_length(payload_length, header_length);
    assert_eq!(bytes.len(), 6 + n);
    read_packet(header_length, BytesMut::from(&bytes[6..]))
}

#[test]
fn test_max_packet_header_size() {
    // Create a dummy header to get its size
    let header = PacketHeader {
        sync_block: Some(false),
        ..Default::default()
    };
    // Add 4 bytes for size of whole packet and 2 bytes for size of header
    assert_eq!(MAX_PACKET_HEADER_SIZE, header.encoded_len() + 4 + 2);
}

#[test]
fn the_bytes_of_a_header() {
    let header = PacketHeader {
        offset_in_block: 0x0102_0304,
        seqno: -1,
        last_packet_in_block: true,
        data_len: 300,
        sync_block: Some(true),
    };
    assert_eq!(
        header.encode_to_vec(),
        vec![
            0x09, 4, 3, 2, 1, 0, 0, 0, 0, 0x11, 255, 255, 255, 255, 255, 255, 255, 255, 0x18, 1,
            0x25, 0x2c, 1, 0, 0, 0x28, 1,
        ]
    );
    assert_eq!(header.encoded_len(), 27);
    assert_eq!(PacketHeader { sync_block: None, ..header }.encoded_len(), 25);
}

#[test]
fn how_many_chunks_fit() {
    assert_eq!(Packet::max_packet_chunks(512, 65536), 126);
    assert_eq!(Packet::max_packet_chunks(512, 0), 1);
    assert_eq!(Packet::max_packet_chunks(512, 33), 0);
    assert_eq!(Packet::max_packet_chunks(512, 33 + 515), 0);
    assert_eq!(Packet::max_packet_chunks(512, 33 + 516), 1);
}

#[test]
fn a_packet_takes_what_fits() {
    let mut packet = Packet::empty(0, 0, 4, 33 + 2 * 8);
    assert!(packet.is_empty());
    assert!(!packet.is_full());
    let mut buf = Bytes::from_static(b"abcdefghij");
    packet.write(&mut buf);
    assert_eq!(&buf[..], b"ij");
    assert!(packet.is_full());
    packet.write(&mut buf);
    assert_eq!(&buf[..], b"ij");
    let (header, sums, data) = packet.finalize();
    assert_eq!(&data[..], b"abcdefgh");
    assert_eq!(header.data_len, 8);
    let mut expected = checksum(ChecksumAlgorithm::Crc32c, b"abcd").to_be_bytes().to_vec();
    expected.extend(checksum(ChecksumAlgorithm::Crc32c, b"efgh").to_be_bytes());
    assert_eq!(&sums[..], &expected[..]);
    assert!(packet.is_empty());
    assert_eq!(packet.header.data_len, 8);
}

#[test]
fn a_packet_is_filled_in_steps() {
    let mut packet = Packet::empty(7, 9, 4, 0);
    packet.write(&mut Bytes::from_static(b"a"));
    packet.write(&mut Bytes::from_static(b"bc"));
    assert!(!packet.is_full());
    packet.set_last_packet();
    let (header, sums, data) = packet.finalize();
    assert_eq!(
        header,
        PacketHeader {
            offset_in_block: 7,
            seqno: 9,
            last_packet_in_block: true,
            data_len: 3,
            sync_block: Some(true),
        }
    );
    assert_eq!(&sums[..], checksum(ChecksumAlgorithm::Crc32c, b"abc").to_be_bytes());
    assert_eq!(&data[..], b"abc");
}

#[test]
fn a_packet_without_room() {
    let mut packet = Packet::empty(0, 0, 512, 33);
    assert!(packet.is_full() && packet.is_empty());
    let mut buf = Bytes::from_static(b"abc");
    packet.write(&mut buf);
    assert_eq!(&buf[..], b"abc");
}

#[test]
fn the_bytes_of_a_packet() {
    let mut packet = Packet::empty(0, 1, 512, 65536);
    packet.write(&mut Bytes::from_static(b"123456789"));
    let frame = write_packet(&mut packet);
    let mut expected = vec![0, 0, 0, 17, 0, 25];
    expected.extend(packet.header.encode_to_vec());
    expected.extend([0xe3, 0x06, 0x92, 0x83]);
    expected.extend(b"123456789");
    assert_eq!(sent(&frame), expected);
}

#[test]
fn a_packet_that_was_sent_is_read_back() {
    let mut packet = Packet::empty(1024, 3, 4, 100);
    packet.write(&mut Bytes::from_static(b"a part of a block"));
    packet.set_last_packet();
    let bytes = sent(&write_packet(&mut packet));
    assert!(bytes.len() <= 100);
    let read = received(&bytes).unwrap().unwrap();
    assert_eq!(read.header, packet.header);
    assert_eq!(read.check(&info(2, 4)), ChunkCheck::Verified);
    assert_eq!(&read.get_data(&info(2, 4)).unwrap()[..], b"a part of a block");
}

#[test]
fn an_empty_packet_is_read_back() {
    let mut packet = Packet::empty(0, 0, 512, 65536);
    packet.set_last_packet();
    let read = received(&sent(&write_packet(&mut packet))).unwrap().unwrap();
    assert!(read.is_empty());
    assert!(read.header.last_packet_in_block);
    assert_eq!(&read.get_data(&info(2, 512)).unwrap()[..], b"");
}

#[test]
fn a_full_packet_keeps_to_its_size() {
    let mut packet = Packet::empty(0, 0, 512, 1000);
    packet.set_last_packet();
    let mut buf = Bytes::from(vec![7u8; 2000]);
    packet.write(&mut buf);
    assert!(packet.is_full());
    assert_eq!(buf.len(), 2000 - 512);
    assert!(sent(&write_packet(&mut packet)).len() <= 1000);
}

fn damaged() -> Packet {
    let mut packet = Packet::empty(0, 0, 4, 100);
    packet.write(&mut Bytes::from_static(b"abcdefgh"));
    let mut bytes = sent(&write_packet(&mut packet));
    let last = bytes.len() - 1;
    bytes[last] ^= 1;
    received(&bytes).unwrap().unwrap()
}

#[test]
fn damaged_data_is_noticed() {
    assert!(matches!(damaged().get_data(&info(2, 4)), Err(HdfsError::ChecksumError)));
    assert!(matches!(
        damaged().checked_get_data(&info(2, 4)),
        Some(Err(HdfsError::ChecksumError))
    ));
    assert!(matches!(damaged().get_data(&info(1, 4)), Err(HdfsError::ChecksumError)));
}

#[test]
fn data_without_checksums_is_not_checked() {
    assert!(damaged().get_data(&None).is_ok());
    assert!(damaged().get_data(&info(0, 4)).is_ok());
    // A number that stands for no algorithm.
    assert!(damaged().get_data(&info(9, 4)).is_ok());
}

#[test]
fn the_other_algorithm_is_used_where_it_was_asked_for() {
    let header = PacketHeader { data_len: 9, ..Default::default() };
    let packet = Packet::new(
        header,
        BytesMut::from(&[0x76, 0x5e, 0x76, 0x80][..]),
        BytesMut::from(&b"123456789"[..]),
    );
    assert_eq!(&packet.get_data(&info(1, 512)).unwrap()[..], b"123456789");
}

#[test]
fn a_packet_with_too_few_checksums() {
    let header = PacketHeader { data_len: 3, ..Default::default() };
    let packet = Packet::new(header, BytesMut::new(), BytesMut::from(&b"abc"[..]));
    assert_eq!(packet.check(&info(2, 4)), ChunkCheck::OutOfChecksums);
    assert!(packet.checked_get_data(&info(2, 4)).is_none());
}

#[test]
fn a_header_that_gives_a_wrong_length() {
    for data_len in [4, -1, i32::MAX] {
        let header = PacketHeader { data_len, ..Default::default() };
        let mut remaining = BytesMut::from(&header.encode_to_vec()[..]);
        remaining.extend_from_slice(b"abc");
        assert!(read_packet(25, remaining).unwrap().is_none());
    }
    let header = PacketHeader { data_len: 3, ..Default::default() };
    let packet = split_packet(header, BytesMut::from(&b"sumsabc"[..]));
    assert_eq!(&packet.get_data(&None).unwrap()[..], b"abc");
}

#[test]
fn a_header_that_is_malformed() {
    let remaining = BytesMut::from(&[0x09, 1, 2, 3][..]);
    assert!(matches!(read_packet(4, remaining), Err(HdfsError::InvalidRPCResponse)));
}

#[test]
fn a_header_with_unknown_fields_and_missing_ones() {
    // Field 7 is a string, field 8 an empty group; the data has two bytes.
    let remaining = BytesMut::from(&[0x3a, 1, b'x', 0x43, 0x44, 0x25, 2, 0, 0, 0, b'h', b'i'][..]);
    let packet = read_packet(10, remaining).unwrap().unwrap();
    assert_eq!(packet.header, PacketHeader { data_len: 2, ..Default::default() });
    assert_eq!(&packet.get_data(&None).unwrap()[..], b"hi");
}

#[test]
fn the_lengths_that_a_packet_starts_with() {
    assert_eq!(packet_lengths([1, 2, 3, 4], [5, 6]), (0x0102_0304, 0x0506));
    assert_eq!(remaining_length(4, 0), 0);
    assert_eq!(remaining_length(17, 25), 38);
}

#[test]
fn which_packets_can_be_sent() {
    let mut packet = Packet::empty(0, 0, 512, 65536);
    assert!(packet.can_be_sent());
    packet.write(&mut Bytes::from(vec![1u8; 1000]));
    assert!(packet.can_be_sent());
    // A packet that was read has no size of chunks.
    let read = Packet::new(
        PacketHeader::default(),
        BytesMut::new(),
        BytesMut::from(&b"abc"[..]),
    );
    assert!(!read.can_be_sent());
    let empty = Packet::new(PacketHeader::default(), BytesMut::new(), BytesMut::new());
    assert!(empty.can_be_sent());
}

#[test]
fn the_header_of_a_packet_is_read_and_set() {
    let mut packet = Packet::empty(7, 9, 4, 0);
    assert_eq!(packet.header().offset_in_block, 7);
    assert_eq!(packet.header(), packet.header);
    let header = PacketHeader { seqno: 10, ..packet.header() };
    packet.set_header(header);
    assert_eq!(packet.header(), header);
    packet.write(&mut Bytes::from_static(b"ab"));
    assert_eq!(packet.finalize().0, PacketHeader { data_len: 2, ..header });
}

#[test]
fn a_changed_byte_is_a_checksum_error() {
    let data = b"abcdefg";
    let mut packet = Packet::empty(0, 0, 3, 100);
    packet.write(&mut Bytes::from_static(data));
    let (header, stored, _) = packet.finalize();
    for i in 0..data.len() {
        let mut changed = data.to_vec();
        changed[i] ^= 0x40;
        let read = Packet::new(header, BytesMut::from(&stored[..]), BytesMut::from(&changed[..]));
        assert!(matches!(read.get_data(&info(2, 3)), Err(HdfsError::ChecksumError)));
    }
    for i in 0..stored.len() {
        let mut changed = stored.to_vec();
        changed[i] ^= 0x40;
        let read = Packet::new(header, BytesMut::from(&changed[..]), BytesMut::from(&data[..]));
        assert!(matches!(read.get_data(&info(2, 3)), Err(HdfsError::ChecksumError)));
    }
}
