use bytes::{Buf, BufMut};
use hdfs_connection::datanode::{
    datanode_url, read_ack, send_read_success, send_request, send_response, DatanodeConnection,
    DatanodeId, ExtendedBlock, Op, Token,
};
use hdfs_connection::datanode_messages::{Checksum, ReadOpChecksumInfo};
use hdfs_connection::error::HdfsError;
use prost::encoding::{DecodeContext, WireType};

fn id(ip_addr: &str, xfer_port: u32) -> DatanodeId {
    DatanodeId { ip_addr: ip_addr.to_string(), xfer_port }
}

#[test]
fn the_numbers_of_the_operations() {
    assert_eq!(Op::WriteBlock.value(), 80);
    assert_eq!(Op::ReadBlock.value(), 81);
}

#[test]
fn the_address_of_a_data_node() {
    for port in [0, 7, 10, 9866, 65535, u32::MAX] {
        assert_eq!(datanode_url(&id("10.0.0.1", port)), format!("10.0.0.1:{port}"));
    }
    assert_ne!(datanode_url(&id("10.0.0.1", 12)), datanode_url(&id("10.0.0.1:1", 2)));
}

#[test]
fn a_connection_has_a_random_name() {
    let first = DatanodeConnection::connect(&id("10.0.0.1", 9866), 1, 2);
    let second = DatanodeConnection::connect(&id("10.0.0.1", 9866), 1, 2);
    assert_ne!(first.client_name, second.client_name);
    let parsed = uuid::Uuid::parse_str(&first.client_name).unwrap();
    assert_eq!(parsed.get_version_num(), 4);
    assert_eq!(parsed.to_string(), first.client_name);
    assert_eq!(first.url, "10.0.0.1:9866");
    let (reader, writer) = first.split();
    assert_eq!((reader.reader, writer.writer), (1, 2));
}

#[test]
fn the_header_of_an_operation() {
    let connection = DatanodeConnection::connect(&id("10.0.0.1", 9866), (), ());
    let block = ExtendedBlock {
        pool_id: "pool".to_string(),
        block_id: 5,
        generation_stamp: 6,
        num_bytes: Some(7),
    };
    let token = Token {
        identifier: vec![1],
        password: vec![2],
        kind: "kind".to_string(),
        service: "service".to_string(),
    };
    let header = connection.build_header(&block, Some(token));
    assert_eq!(header.client_name, connection.client_name);
    assert_eq!(header.base_header.block.pool_id, "pool");
    assert_eq!(header.base_header.block.block_id, 5);
    assert_eq!(header.base_header.block.generation_stamp, 6);
    assert_eq!(header.base_header.block.num_bytes, Some(7));
    assert_eq!(header.base_header.token.unwrap().identifier, vec![1]);
    assert!(connection.build_header(&block, None).base_header.token.is_none());
}

#[test]
fn what_starts_an_operation() {
    assert_eq!(send_request(Op::ReadBlock, b"abc"), b"\x00\x1c\x51\x03abc");
    assert_eq!(send_request(Op::WriteBlock, b""), b"\x00\x1c\x50\x00");
}

#[test]
fn what_ends_a_read() {
    assert_eq!(send_read_success(), vec![2, 8, 6]);
}

#[test]
fn the_answer_to_an_operation() {
    let mut bytes: Vec<u8> = Vec::new();
    prost::encoding::int32::encode(1, &5, &mut bytes);
    prost::encoding::string::encode(2, &"10.0.0.2:9866".to_string(), &mut bytes);
    let mut checksum: Vec<u8> = Vec::new();
    prost::encoding::int32::encode(1, &2, &mut checksum);
    prost::encoding::uint32::encode(2, &512, &mut checksum);
    let mut info: Vec<u8> = Vec::new();
    prost::encoding::bytes::encode(1, &checksum, &mut info);
    prost::encoding::uint64::encode(2, &1024, &mut info);
    prost::encoding::bytes::encode(4, &info, &mut bytes);
    prost::encoding::string::encode(5, &"a message".to_string(), &mut bytes);
    prost::encoding::uint32::encode(6, &u32::MAX, &mut bytes);
    let response = send_response(&bytes).unwrap();
    assert_eq!(response.status, 5);
    assert_eq!(response.first_bad_link.as_deref(), Some("10.0.0.2:9866"));
    assert!(response.checksum_response.is_none());
    assert_eq!(
        response.read_op_checksum_info,
        Some(ReadOpChecksumInfo {
            checksum: Checksum { checksum_type: 2, bytes_per_checksum: 512 },
            chunk_offset: 1024,
        })
    );
    assert_eq!(response.message.as_deref(), Some("a message"));
    assert_eq!(response.short_circuit_access_version, Some(u32::MAX));
}

#[test]
fn the_answer_with_the_checksum_of_a_block() {
    let mut options: Vec<u8> = Vec::new();
    prost::encoding::int32::encode(1, &1, &mut options);
    prost::encoding::uint64::encode(2, &4096, &mut options);
    let mut checksum: Vec<u8> = Vec::new();
    prost::encoding::uint32::encode(1, &512, &mut checksum);
    prost::encoding::uint64::encode(2, &u64::MAX, &mut checksum);
    prost::encoding::bytes::encode(3, &vec![9u8, 8, 7], &mut checksum);
    prost::encoding::int32::encode(4, &-1, &mut checksum);
    prost::encoding::bytes::encode(5, &options, &mut checksum);
    let mut bytes: Vec<u8> = Vec::new();
    prost::encoding::bytes::encode(3, &checksum, &mut bytes);
    let response = send_response(&bytes).unwrap();
    assert_eq!(response.status, 0);
    let checksum = response.checksum_response.unwrap();
    assert_eq!(checksum.bytes_per_crc, 512);
    assert_eq!(checksum.crc_per_block, u64::MAX);
    assert_eq!(checksum.block_checksum, vec![9, 8, 7]);
    assert_eq!(checksum.crc_type, Some(-1));
    let options = checksum.block_checksum_options.unwrap();
    assert_eq!(options.block_checksum_type, Some(1));
    assert_eq!(options.stripe_length, Some(4096));
}

#[test]
fn a_message_that_comes_in_pieces_is_put_together() {
    // The information on checksums comes twice: first the size of a chunk, then the type.
    let bytes = [0x22, 4, 0x0a, 2, 0x10, 8, 0x22, 6, 0x10, 3, 0x0a, 2, 0x08, 1];
    let response = send_response(&bytes).unwrap();
    assert_eq!(
        response.read_op_checksum_info,
        Some(ReadOpChecksumInfo {
            checksum: Checksum { checksum_type: 1, bytes_per_checksum: 8 },
            chunk_offset: 3,
        })
    );
}

#[test]
fn an_answer_that_is_malformed() {
    let nested = [0x22, 4, 0x0a, 3, 0x10, 8];
    for bytes in [&[0x08][..], &nested, &[0x12, 1, 0xff], &[0x0c], &[0x0a, 0]] {
        assert!(matches!(send_response(bytes), Err(HdfsError::InvalidRPCResponse)));
    }
    assert!(send_response(&[]).is_ok());
}

#[test]
fn the_acknowledgement_of_a_packet() {
    let mut bytes: Vec<u8> = Vec::new();
    prost::encoding::sint64::encode(1, &-12, &mut bytes);
    prost::encoding::int32::encode_repeated(2, &[0, 1, -1], &mut bytes);
    prost::encoding::uint64::encode(3, &99, &mut bytes);
    prost::encoding::uint32::encode_packed(4, &[7, u32::MAX], &mut bytes);
    let ack = read_ack(&bytes).unwrap();
    assert_eq!(ack.seqno, -12);
    assert_eq!(ack.reply, vec![0, 1, -1]);
    assert_eq!(ack.downstream_ack_time_nanos, Some(99));
    assert_eq!(ack.flag, vec![7, u32::MAX]);
}

#[test]
fn integers_may_be_packed_or_not() {
    let mut bytes: Vec<u8> = Vec::new();
    prost::encoding::int32::encode_packed(2, &[3, 4], &mut bytes);
    prost::encoding::int32::encode_repeated(2, &[5], &mut bytes);
    prost::encoding::uint32::encode_repeated(4, &[6], &mut bytes);
    let ack = read_ack(&bytes).unwrap();
    assert_eq!(ack.reply, vec![3, 4, 5]);
    assert_eq!(ack.flag, vec![6]);
    assert_eq!(ack.seqno, 0);
    assert_eq!(ack.downstream_ack_time_nanos, None);
}

#[test]
fn the_largest_sequence_numbers() {
    for seqno in [0, -1, 1, i64::MAX, i64::MIN] {
        let mut bytes: Vec<u8> = Vec::new();
        prost::encoding::sint64::encode(1, &seqno, &mut bytes);
        assert_eq!(read_ack(&bytes).unwrap().seqno, seqno);
    }
}

#[test]
fn an_acknowledgement_that_is_malformed() {
    for bytes in [&[0x12, 2, 0x80, 0x80][..], &[0x12, 3, 1], &[0x15, 0, 0, 0, 0], &[0x0a, 1, 0]] {
        assert!(matches!(read_ack(bytes), Err(HdfsError::InvalidRPCResponse)));
    }
}

/// A message whose field with the number 1 is a message without known fields.
#[derive(Debug, Default)]
struct Inner(());

/// A message whose field with the number 4 is an `Inner`.
#[derive(Debug, Default)]
struct Outer(Inner);

impl prost::Message for Inner {
    fn encode_raw<B: BufMut>(&self, _: &mut B) {}

    fn merge_field<B: Buf>(
        &mut self,
        tag: u32,
        wire_type: WireType,
        buf: &mut B,
        ctx: DecodeContext,
    ) -> Result<(), prost::DecodeError> {
        if tag == 1 {
            prost::encoding::message::merge(wire_type, &mut self.0, buf, ctx)
        } else {
            prost::encoding::skip_field(wire_type, tag, buf, ctx)
        }
    }

    fn encoded_len(&self) -> usize {
        0
    }

    fn clear(&mut self) {}
}

impl prost::Message for Outer {
    fn encode_raw<B: BufMut>(&self, _: &mut B) {}

    fn merge_field<B: Buf>(
        &mut self,
        tag: u32,
        wire_type: WireType,
        buf: &mut B,
        ctx: DecodeContext,
    ) -> Result<(), prost::DecodeError> {
        if tag == 4 {
            prost::encoding::message::merge(wire_type, &mut self.0, buf, ctx)
        } else {
            prost::encoding::skip_field(wire_type, tag, buf, ctx)
        }
    }

    fn encoded_len(&self) -> usize {
        0
    }

    fn clear(&mut self) {}
}

fn groups(depth: usize) -> Vec<u8> {
    let mut r = vec![0x7b; depth];
    r.extend(vec![0x7c; depth]);
    r
}

fn field(tag: u32, value: &Vec<u8>) -> Vec<u8> {
    let mut r = Vec::new();
    prost::encoding::bytes::encode(tag, value, &mut r);
    r
}

#[test]
fn groups_nest_as_deep_as_anywhere() {
    let mut refused = 0;
    for depth in 95..105 {
        let group = groups(depth);
        for bytes in [group.clone(), field(4, &group), field(4, &field(1, &group))] {
            let expected = <Outer as prost::Message>::decode(&bytes[..]).is_ok();
            assert_eq!(send_response(&bytes).is_ok(), expected);
            if !expected {
                refused += 1;
            }
        }
    }
    assert!(refused > 0 && refused < 30);
}

#[test]
fn a_connection_with_a_given_name() {
    let connection =
        DatanodeConnection::with_client_name("name".to_string(), &id("10.0.0.1", 80), 1, 2);
    assert_eq!(connection.client_name, "name");
    assert_eq!(connection.url, "10.0.0.1:80");
    assert_eq!((connection.reader, connection.writer), (1, 2));
}
