use std::collections::HashMap;

use bytes::Bytes;
use hdfs_connection::alignment::AlignmentContext;
use hdfs_connection::error::{HdfsError, IoErrorKind};
use hdfs_connection::rpc::{
    message_length, preamble, service_name, write_messages, ListenerStep, RpcConnection,
    RpcListener, UserInfo,
};
use hdfs_connection::rpc_messages::PROTOCOL;

fn nobody() -> UserInfo {
    UserInfo { real_user: None, effective_user: None }
}

fn connection() -> RpcConnection {
    RpcConnection::with_client_id(vec![1, 2, 3], nobody())
}

fn delimited(body: &[u8]) -> Vec<u8> {
    let mut r = Vec::new();
    prost::encoding::encode_varint(body.len() as u64, &mut r);
    r.extend(body);
    r
}

fn request(call_id: i32, retry_count: i32, state_id: i64) -> Vec<u8> {
    let mut r = Vec::new();
    prost::encoding::int32::encode(1, &2, &mut r);
    prost::encoding::int32::encode(2, &0, &mut r);
    prost::encoding::sint32::encode(3, &call_id, &mut r);
    prost::encoding::bytes::encode(4, &vec![1u8, 2, 3], &mut r);
    prost::encoding::sint32::encode(5, &retry_count, &mut r);
    prost::encoding::int64::encode(8, &state_id, &mut r);
    r
}

fn framed(messages: &[&[u8]]) -> Vec<u8> {
    let body: Vec<u8> = messages.concat();
    let mut r = (body.len() as u32).to_be_bytes().to_vec();
    r.extend(body);
    r
}

fn response(call_id: u32, status: i32) -> Vec<u8> {
    let mut r = Vec::new();
    prost::encoding::uint32::encode(1, &call_id, &mut r);
    prost::encoding::int32::encode(2, &status, &mut r);
    r
}

fn failed_response(call_id: u32, status: i32) -> Vec<u8> {
    let mut r = response(call_id, status);
    prost::encoding::string::encode(4, &"java.io.IOException".to_string(), &mut r);
    prost::encoding::string::encode(5, &"no such file".to_string(), &mut r);
    r
}

fn message(header: &[u8], payload: &[u8]) -> Bytes {
    let mut r = delimited(header);
    r.extend(payload);
    Bytes::from(r)
}

fn waiting() -> HashMap<i32, &'static str> {
    let mut calls = HashMap::new();
    calls.insert(4, "four");
    calls.insert(-7, "minus seven");
    calls
}

#[test]
fn what_a_connection_starts_with() {
    assert_eq!(preamble(), b"hrpc\x09\x00\xdf");
}

#[test]
fn the_name_of_the_service() {
    assert_eq!(service_name("namenode:8020", Some("ns")), "ha-hdfs:ns");
    assert_eq!(service_name("namenode:8020", None), "namenode:8020");
}

#[test]
fn messages_are_framed() {
    assert_eq!(write_messages(&[b"ab", b"", b"cde"]), b"\x00\x00\x00\x05abcde");
    assert_eq!(write_messages(&[]), b"\x00\x00\x00\x00");
    let long = vec![7u8; 0x0102];
    let frame = write_messages(&[&long]);
    assert_eq!(message_length(frame[..4].try_into().unwrap()) as usize, frame.len() - 4);
}

#[test]
fn the_length_before_a_message() {
    assert_eq!(message_length([1, 2, 3, 4]), 0x0102_0304);
    assert_eq!(message_length([255; 4]), u32::MAX);
}

#[test]
fn a_connection_has_a_random_id() {
    let first = RpcConnection::connect(nobody());
    let second = RpcConnection::connect(nobody());
    assert_eq!(first.client_id.len(), 16);
    assert_ne!(first.client_id, second.client_id);
    let bytes: [u8; 16] = first.client_id[..].try_into().unwrap();
    assert_eq!(uuid::Uuid::from_bytes_le(bytes).get_version_num(), 4);
    assert_eq!(first.next_call_id, 0);
}

#[test]
fn call_ids_count_up_and_wrap() {
    let mut conn = connection();
    assert_eq!(conn.get_next_call_id(), 0);
    assert_eq!(conn.get_next_call_id(), 1);
    conn.next_call_id = i32::MAX;
    assert_eq!(conn.get_next_call_id(), i32::MAX);
    assert_eq!(conn.get_next_call_id(), i32::MIN);
    assert_eq!(conn.get_next_call_id(), i32::MIN + 1);
}

#[test]
fn the_frame_that_opens_a_connection() {
    let conn = RpcConnection::with_client_id(
        vec![1, 2, 3],
        UserInfo {
            real_user: Some("real".to_string()),
            effective_user: Some("effective".to_string()),
        },
    );
    let mut user = Vec::new();
    prost::encoding::string::encode(1, &"effective".to_string(), &mut user);
    prost::encoding::string::encode(2, &"real".to_string(), &mut user);
    let mut context = Vec::new();
    prost::encoding::bytes::encode(2, &user, &mut context);
    prost::encoding::string::encode(3, &PROTOCOL.to_string(), &mut context);
    assert_eq!(
        conn.opening_frame(&AlignmentContext::default()),
        framed(&[&delimited(&request(-3, -1, i64::MIN)), &delimited(&context)])
    );
}

#[test]
fn the_frame_of_a_call() {
    let mut conn = connection();
    conn.next_call_id = 5;
    let mut calls = HashMap::new();
    let context = AlignmentContext { state_id: 77, router_federated_state: None };
    let frame = conn.call(&context, &mut calls, "caller", "getFileInfo", b"\x02hi");
    let mut header = Vec::new();
    prost::encoding::string::encode(1, &"getFileInfo".to_string(), &mut header);
    prost::encoding::string::encode(
        2,
        &"org.apache.hadoop.hdfs.protocol.ClientProtocol".to_string(),
        &mut header,
    );
    prost::encoding::uint64::encode(3, &1, &mut header);
    assert_eq!(
        frame,
        framed(&[&delimited(&request(5, 0, 77)), &delimited(&header), b"\x02hi"])
    );
    assert_eq!(calls.get(&5), Some(&"caller"));
    assert_eq!(conn.next_call_id, 6);
}

#[test]
fn a_request_tells_the_state_of_the_namespaces() {
    let mut context = AlignmentContext::default();
    context.update(Some(3), Some(vec![0x0a, 5, 0x0a, 1, b'a', 0x10, 9])).unwrap();
    let header = connection().get_connection_header(&context, 1, 0);
    assert_eq!(header.state_id, Some(3));
    let mut expected = request(1, 0, 3);
    prost::encoding::bytes::encode(9, &vec![0x0au8, 5, 0x0a, 1, b'a', 0x10, 9], &mut expected);
    assert_eq!(header.encode_length_delimited_to_vec(), delimited(&expected));
}

#[test]
fn a_connection_lives_while_its_listener_does() {
    assert!(RpcConnection::is_alive(Some(false)));
    assert!(!RpcConnection::is_alive(Some(true)));
    assert!(!RpcConnection::is_alive(None));
}

#[test]
fn a_successful_response() {
    let mut calls = waiting();
    let mut context = AlignmentContext::default();
    let mut header = response(4, 0);
    prost::encoding::int64::encode(9, &-5, &mut header);
    prost::encoding::bytes::encode(10, &vec![0x0au8, 5, 0x0a, 1, b'a', 0x10, 9], &mut header);
    let reply = RpcListener::read_response(&mut calls, &mut context, message(&header, b"payload"))
        .unwrap()
        .unwrap();
    assert_eq!(reply.call, "four");
    assert_eq!(&reply.outcome.unwrap()[..], b"payload");
    assert_eq!(context.state_id, -5);
    assert_eq!(context.router_federated_state.unwrap().get("a"), Some(9));
    assert_eq!(calls.len(), 1);
    assert!(calls.contains_key(&-7));
}

#[test]
fn a_status_that_stands_for_nothing_is_success() {
    let mut calls = waiting();
    let mut context = AlignmentContext::default();
    let reply = RpcListener::read_response(&mut calls, &mut context, message(&response(4, 9), b""))
        .unwrap()
        .unwrap();
    assert_eq!(&reply.outcome.unwrap()[..], b"");
}

#[test]
fn a_failed_call() {
    let mut calls = waiting();
    let mut context = AlignmentContext::default();
    let mut header = failed_response(4, 1);
    prost::encoding::int64::encode(9, &8, &mut header);
    let reply = RpcListener::read_response(&mut calls, &mut context, message(&header, b""))
        .unwrap()
        .unwrap();
    assert_eq!(reply.call, "four");
    assert!(matches!(
        reply.outcome,
        Err(HdfsError::RPCError(class, msg))
            if class == "java.io.IOException" && msg == "no such file"
    ));
    // Only a success brings a new state.
    assert_eq!(context.state_id, i64::MIN);
}

#[test]
fn a_failed_call_without_an_explanation() {
    let mut calls = waiting();
    let mut context = AlignmentContext::default();
    let reply = RpcListener::read_response(&mut calls, &mut context, message(&response(4, 1), b""))
        .unwrap()
        .unwrap();
    assert!(matches!(
        reply.outcome,
        Err(HdfsError::RPCError(class, msg)) if class.is_empty() && msg.is_empty()
    ));
}

#[test]
fn a_fatal_error() {
    let mut calls = waiting();
    let mut context = AlignmentContext::default();
    let bytes = message(&failed_response(4, 2), b"");
    let r = RpcListener::read_response(&mut calls, &mut context, bytes);
    assert!(matches!(
        r,
        Err(HdfsError::FatalRPCError(class, msg))
            if class == "java.io.IOException" && msg == "no such file"
    ));
    assert!(!calls.contains_key(&4));
}

#[test]
fn a_call_with_a_negative_id() {
    let mut calls = waiting();
    let mut context = AlignmentContext::default();
    let header = response(-7i32 as u32, 0);
    let reply = RpcListener::read_response(&mut calls, &mut context, message(&header, b"x"))
        .unwrap()
        .unwrap();
    assert_eq!(reply.call, "minus seven");
}

#[test]
fn a_response_that_nobody_waits_for() {
    let mut calls = waiting();
    let mut context = AlignmentContext::default();
    for status in [0, 1, 2] {
        let mut header = failed_response(5, status);
        prost::encoding::int64::encode(9, &8, &mut header);
        let r = RpcListener::read_response(&mut calls, &mut context, message(&header, b""));
        assert!(matches!(r, Ok(None)));
    }
    assert_eq!(calls.len(), 2);
    assert_eq!(context.state_id, i64::MIN);
}

#[test]
fn a_call_is_answered_once() {
    let mut calls = waiting();
    let mut context = AlignmentContext::default();
    let bytes = message(&response(4, 0), b"x");
    let first = RpcListener::read_response(&mut calls, &mut context, bytes.clone());
    assert!(matches!(first, Ok(Some(_))));
    let second = RpcListener::read_response(&mut calls, &mut context, bytes);
    assert!(matches!(second, Ok(None)));
}

#[test]
fn a_response_that_is_malformed() {
    let mut calls = waiting();
    let mut context = AlignmentContext::default();
    for bytes in [&b""[..], b"\x05\x08\x04", b"\x02\x0a\x01", b"\x01\x08"] {
        let r = RpcListener::read_response(&mut calls, &mut context, Bytes::copy_from_slice(bytes));
        assert!(matches!(r, Err(HdfsError::InvalidRPCResponse)));
    }
    assert_eq!(calls.len(), 2);
}

#[test]
fn a_response_with_malformed_states() {
    let mut calls = waiting();
    let mut context = AlignmentContext::default();
    let mut header = response(4, 0);
    prost::encoding::int64::encode(9, &8, &mut header);
    prost::encoding::bytes::encode(10, &vec![0x0au8], &mut header);
    let r = RpcListener::read_response(&mut calls, &mut context, message(&header, b""));
    assert!(matches!(r, Err(HdfsError::InvalidRPCResponse)));
    assert_eq!(context.state_id, 8);
    assert!(context.router_federated_state.is_none());
    assert!(!calls.contains_key(&4));
}

#[test]
fn all_fields_of_a_response() {
    let mut calls = waiting();
    let mut context = AlignmentContext::default();
    let mut header = Vec::new();
    prost::encoding::sint32::encode(8, &-1, &mut header);
    prost::encoding::bytes::encode(7, &vec![1u8], &mut header);
    prost::encoding::int32::encode(6, &3, &mut header);
    prost::encoding::uint32::encode(3, &9, &mut header);
    prost::encoding::string::encode(11, &"unknown".to_string(), &mut header);
    header.extend(response(4, 0));
    let r = RpcListener::read_response(&mut calls, &mut context, message(&header, b"y"));
    assert_eq!(&r.unwrap().unwrap().outcome.unwrap()[..], b"y");
}

#[test]
fn groups_in_a_response_nest_as_deep_as_anywhere() {
    let mut refused = 0;
    for depth in 95..105 {
        let mut group = vec![0x7b; depth];
        group.extend(vec![0x7c; depth]);
        let bytes = message(&group, b"");
        let expected = <() as prost::Message>::decode_length_delimited(bytes.clone()).is_ok();
        let mut calls = waiting();
        let mut context = AlignmentContext::default();
        let r = RpcListener::read_response(&mut calls, &mut context, bytes);
        assert_eq!(r.is_ok(), expected);
        if !expected {
            refused += 1;
        }
    }
    assert!(refused > 0 && refused < 10);
}

#[test]
fn the_listener_goes_on_until_the_end() {
    let mut listener = RpcListener::new();
    assert!(listener.alive);
    assert!(matches!(listener.after_response(Ok(())), ListenerStep::Continue));
    assert!(listener.alive);
    let end = listener.after_response(Err(HdfsError::IOError(IoErrorKind::UnexpectedEof)));
    assert!(matches!(end, ListenerStep::Stop));
    assert!(!listener.alive);
}

#[test]
fn the_listener_gives_up_on_other_errors() {
    let mut listener = RpcListener::new();
    let step = listener.after_response(Err(HdfsError::IOError(IoErrorKind::Other)));
    assert!(matches!(step, ListenerStep::Abort(HdfsError::IOError(IoErrorKind::Other))));
    let step = listener.after_response(Err(HdfsError::InvalidRPCResponse));
    assert!(matches!(step, ListenerStep::Abort(HdfsError::InvalidRPCResponse)));
    assert!(listener.alive);
}

#[test]
fn ordinary_messages_fit_in_a_frame() {
    let conn = connection();
    let context = AlignmentContext::default();
    assert!(conn.opening_fits(&context));
    assert!(conn.call_fits(&context, "getFileInfo", b"hi"));
}
