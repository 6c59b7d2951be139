use std::collections::HashMap;

use hdfs_connection::alignment::{AlignmentContext, NamespaceStates};
use hdfs_connection::error::HdfsError;

fn encode_router_state(map: &HashMap<String, i64>) -> Vec<u8> {
    let mut buf: Vec<u8> = Vec::new();
    prost::encoding::hash_map::encode(
        prost::encoding::string::encode,
        prost::encoding::string::encoded_len,
        prost::encoding::int64::encode,
        prost::encoding::int64::encoded_len,
        1,
        map,
        &mut buf,
    );
    buf
}

fn states(pairs: &[(&str, i64)]) -> HashMap<String, i64> {
    let mut map = HashMap::new();
    for (namespace, state_id) in pairs {
        map.insert(namespace.to_string(), *state_id);
    }
    map
}

fn known(context: &AlignmentContext, namespace: &str) -> Option<i64> {
    context.router_federated_state.as_ref().unwrap().get(namespace)
}

#[test]
fn test_router_federated_state() {
    let mut alignment_context = AlignmentContext::default();

    assert!(alignment_context.router_federated_state.is_none());

    let mut state_map = HashMap::<String, i64>::new();
    state_map.insert("ns-1".to_string(), 3);

    alignment_context
        .update(None, Some(encode_router_state(&state_map)))
        .unwrap();

    assert!(alignment_context.router_federated_state.is_some());

    let router_state = alignment_context.router_federated_state.as_ref().unwrap();

    assert_eq!(router_state.len(), 1);
    assert_eq!(router_state.get("ns-1").unwrap(), 3);

    state_map.insert("ns-1".to_string(), 5);
    state_map.insert("ns-2".to_string(), 7);

    alignment_context
        .update(None, Some(encode_router_state(&state_map)))
        .unwrap();

    let router_state = alignment_context.router_federated_state.as_ref().unwrap();

    assert_eq!(router_state.len(), 2);
    assert_eq!(router_state.get("ns-1").unwrap(), 5);
    assert_eq!(router_state.get("ns-2").unwrap(), 7);
}

#[test]
fn a_new_context_knows_nothing() {
    let context = AlignmentContext::default();
    assert_eq!(context.state_id, i64::MIN);
    assert!(context.encode_router_state().is_none());
}

#[test]
fn the_state_id_is_taken_over_as_it_is() {
    let mut context = AlignmentContext::default();
    context.update(Some(12), None).unwrap();
    assert_eq!(context.state_id, 12);
    context.update(Some(4), None).unwrap();
    assert_eq!(context.state_id, 4);
    context.update(None, None).unwrap();
    assert_eq!(context.state_id, 4);
    assert!(context.router_federated_state.is_none());
}

#[test]
fn namespace_states_never_go_back() {
    let mut context = AlignmentContext::default();
    context.update(None, Some(encode_router_state(&states(&[("a", 9), ("b", -4)])))).unwrap();
    context.update(None, Some(encode_router_state(&states(&[("a", 2), ("b", -3)])))).unwrap();
    assert_eq!(known(&context, "a"), Some(9));
    assert_eq!(known(&context, "b"), Some(-3));
    assert_eq!(known(&context, "c"), None);
}

#[test]
fn the_smallest_state_id_is_kept() {
    let mut context = AlignmentContext::default();
    context.update(None, Some(encode_router_state(&states(&[("a", i64::MIN)])))).unwrap();
    assert_eq!(known(&context, "a"), Some(i64::MIN));
}

#[test]
fn the_order_of_responses_does_not_matter() {
    let first = encode_router_state(&states(&[("a", 1), ("b", 8)]));
    let second = encode_router_state(&states(&[("a", 5), ("c", 2)]));
    let mut forth = AlignmentContext::default();
    forth.update(None, Some(first.clone())).unwrap();
    forth.update(None, Some(second.clone())).unwrap();
    forth.update(None, Some(second.clone())).unwrap();
    let mut back = AlignmentContext::default();
    back.update(None, Some(second)).unwrap();
    back.update(None, Some(first)).unwrap();
    for namespace in ["a", "b", "c", "d"] {
        assert_eq!(known(&forth, namespace), known(&back, namespace));
    }
    assert_eq!(known(&forth, "a"), Some(5));
}

#[test]
fn an_empty_message_makes_the_namespaces_known() {
    let mut context = AlignmentContext::default();
    context.update(None, Some(Vec::new())).unwrap();
    assert_eq!(context.router_federated_state.as_ref().unwrap().len(), 0);
    assert_eq!(context.encode_router_state(), Some(Vec::new()));
}

#[test]
fn a_malformed_message_changes_only_the_state_id() {
    let mut context = AlignmentContext::default();
    context.update(Some(1), Some(encode_router_state(&states(&[("a", 1)])))).unwrap();
    // The entry claims more bytes than there are.
    let r = context.update(Some(2), Some(vec![0x0a, 0x05, 0x0a, 0x01]));
    assert!(matches!(r, Err(HdfsError::InvalidRPCResponse)));
    assert_eq!(context.state_id, 2);
    assert_eq!(known(&context, "a"), Some(1));
}

#[test]
fn the_message_of_one_namespace() {
    let mut namespaces = NamespaceStates::new();
    namespaces.insert("ns".to_string(), 300);
    assert_eq!(
        namespaces.encode_to_vec(),
        vec![0x0a, 0x07, 0x0a, 0x02, b'n', b's', 0x10, 0xac, 0x02]
    );
    let map = states(&[("ns", 300)]);
    assert_eq!(namespaces.encode_to_vec(), encode_router_state(&map));
}

#[test]
fn defaults_are_left_out_of_an_entry() {
    for (namespace, state_id) in [("", 0i64), ("", 7), ("x", 0), ("x", -1)] {
        let mut namespaces = NamespaceStates::new();
        namespaces.insert(namespace.to_string(), state_id);
        let map = states(&[(namespace, state_id)]);
        assert_eq!(namespaces.encode_to_vec(), encode_router_state(&map));
        let mut context = AlignmentContext::default();
        context.update(None, Some(namespaces.encode_to_vec())).unwrap();
        assert_eq!(known(&context, namespace), Some(state_id));
    }
}

#[test]
fn what_is_sent_is_read_back() {
    let mut context = AlignmentContext::default();
    let map = states(&[("a", 1), ("b", i64::MAX), ("", -1), ("\u{e4}\u{1f600}", i64::MIN)]);
    context.update(None, Some(encode_router_state(&map))).unwrap();
    let sent = context.encode_router_state().unwrap();
    context.update(None, Some(sent.clone())).unwrap();
    assert_eq!(context.encode_router_state().unwrap(), sent);
    let mut other = AlignmentContext::default();
    other.update(None, Some(sent)).unwrap();
    for (namespace, state_id) in &map {
        assert_eq!(known(&other, namespace), Some(*state_id));
    }
    assert_eq!(other.router_federated_state.unwrap().len(), 4);
}

#[test]
fn a_later_entry_replaces_an_earlier_one() {
    let mut bytes = encode_router_state(&states(&[("a", 9)]));
    bytes.extend(encode_router_state(&states(&[("a", 2)])));
    let mut context = AlignmentContext::default();
    context.update(None, Some(bytes)).unwrap();
    assert_eq!(known(&context, "a"), Some(2));
}

#[test]
fn unknown_fields_of_an_entry_are_passed_over() {
    // Field 3 of the entry is an integer, field 2 of the message four bytes.
    let bytes = vec![
        0x0a, 0x07, 0x0a, 0x01, b'a', 0x18, 0x05, 0x10, 0x06, 0x15, 1, 2, 3, 4,
    ];
    let mut context = AlignmentContext::default();
    context.update(None, Some(bytes)).unwrap();
    assert_eq!(known(&context, "a"), Some(6));
}

#[test]
fn a_namespace_that_is_no_text_is_refused() {
    let mut context = AlignmentContext::default();
    let r = context.update(None, Some(vec![0x0a, 0x03, 0x0a, 0x01, 0xff]));
    assert!(matches!(r, Err(HdfsError::InvalidRPCResponse)));
    assert!(context.router_federated_state.is_none());
}
