//! Remote procedure calls to a name node.

use std::collections::HashMap;
use vstd::prelude::*;
use vstd::utf8::encode_utf8;
use bytes::Bytes;
use crate::alignment::{
    is_states_message, router_state_message, updated, AlignmentContext, NamespaceStates,
};
use crate::buffers::{bytes_as_slice, bytes_split_to, contents};
use crate::error::{HdfsError, IoErrorKind};
use crate::fields::{optional_field, raw, read_fields, signed, widened, FieldValue};
use crate::integers::{
    be32, be_bytes, be_value, lemma_be_round_trip, pow256, put_be32, signed32, to_signed32,
    unsigned32, unsigned64, zigzag,
};
use crate::message::{
    decode_length_delimited, decoded, decoded_delimited, law_delimited_message,
};
use crate::rpc_messages::{
    fits, law_connection_context_on_the_wire, law_method_on_the_wire,
    law_request_header_on_the_wire, law_response_header_is_read_back, law_users_on_the_wire,
    response_bytes, string_or_empty, IpcConnectionContext, IpcConnectionContextView, RequestHeader,
    RequestHeaderView, RpcRequestHeader, RpcRequestHeaderView, RpcResponseHeader,
    RpcResponseHeaderView, RpcStatus, UserInformation, UserInformationView, PROTOCOL,
    RPC_FINAL_PACKET, RPC_PROTOCOL_BUFFER,
};
use crate::wire::{
    delimited, lemma_delimited_round_trip, lemma_read_delimited_rest, optional_string, put_slice,
    read_delimited,
};

verus! {

broadcast use vstd::std_specs::hash::group_hash_axioms;

/// The version of the RPC protocol.
pub const RPC_VERSION: u8 = 9;

/// The class of service that the client asks for.
pub const SERVICE_CLASS: u8 = 0;

/// The byte that asks for authentication by SASL: -33 in two's complement.
pub const AUTH_PROTOCOL: u8 = 0xdf;

/// The call id of the message that opens a connection.
pub const CONNECTION_CONTEXT_CALL_ID: i32 = -3;

/// The retry count of the message that opens a connection.
pub const NO_RETRY: i32 = -1;

/// The version of the client protocol.
pub const CLIENT_PROTOCOL_VERSION: u64 = 1;

/// The users of a connection.
#[derive(Debug)]
pub struct UserInfo {
    pub real_user: Option<String>,
    pub effective_user: Option<String>,
}

/// What the client says first on a new connection.
pub open spec fn preamble_bytes() -> Seq<u8> {
    seq![0x68u8, 0x72, 0x70, 0x63, RPC_VERSION, SERVICE_CLASS, AUTH_PROTOCOL]
}

/// What the client says first on a new connection: the letters `hrpc`, the version of the
/// protocol, the class of service, and how it will authenticate.
pub fn preamble() -> (r: Vec<u8>)
    ensures
        r@ == preamble_bytes(),
{
    let r = vec![0x68u8, 0x72, 0x70, 0x63, RPC_VERSION, SERVICE_CLASS, AUTH_PROTOCOL];
    assert(r@ =~= preamble_bytes());
    r
}

/// The name of the service to authenticate with: that of the name service behind several name
/// nodes, where there is one, else the address.
pub fn service_name(url: &str, nameservice: Option<&str>) -> (r: String)
    ensures
        r@ == (match nameservice {
            Some(ns) => "ha-hdfs:"@ + ns@,
            None => url@,
        }),
{
    match nameservice {
        Some(ns) => {
            let r: String = "ha-hdfs:".to_owned();
            r.concat(ns)
        },
        None => url.to_owned(),
    }
}

// Frames

/// The bytes of all messages, one after the other.
pub open spec fn joined(messages: Seq<&[u8]>) -> Seq<u8>
    decreases messages.len(),
{
    if messages.len() == 0 {
        Seq::empty()
    } else {
        joined(messages.drop_last()) + messages.last()@
    }
}

/// The sum of the lengths of all messages, each of which counts modulo `2^32`.
pub open spec fn frame_size(messages: Seq<&[u8]>) -> nat
    decreases messages.len(),
{
    if messages.len() == 0 {
        0
    } else {
        frame_size(messages.drop_last()) + messages.last()@.len() % 0x1_0000_0000
    }
}

/// The bytes that take some messages to the server: their size, then the messages.
pub open spec fn framed(messages: Seq<&[u8]>) -> Seq<u8> {
    be_bytes(frame_size(messages), 4) + joined(messages)
}

proof fn lemma_frame_size_monotone(messages: Seq<&[u8]>, n: int)
    requires
        0 <= n <= messages.len(),
    ensures
        frame_size(messages.take(n)) <= frame_size(messages),
    decreases messages.len(),
{
    if n < messages.len() {
        lemma_frame_size_monotone(messages.drop_last(), n);
        assert(messages.drop_last().take(n) =~= messages.take(n));
    } else {
        assert(messages.take(n) =~= messages);
    }
}

/// The bytes that take some messages to the server: their size, then the messages.
pub fn write_messages(messages: &[&[u8]]) -> (buf: Vec<u8>)
    requires
        frame_size(messages@) <= u32::MAX,
    ensures
        buf@ == framed(messages@),
{
    let mut size: u32 = 0;
    let mut i: usize = 0;
    while i < messages.len()
        invariant
            i <= messages@.len(),
            frame_size(messages@) <= u32::MAX,
            size == frame_size(messages@.take(i as int)),
        decreases messages@.len() - i,
    {
        proof {
            lemma_frame_size_monotone(messages@, i + 1);
            assert(messages@.take(i + 1).drop_last() =~= messages@.take(i as int));
        }
        size += message_size(messages[i]) as u32;
        i += 1;
    }
    assert(messages@.take(i as int) =~= messages@);
    let mut buf: Vec<u8> = Vec::new();
    put_be32(&mut buf, size);
    let ghost prefix = buf@;
    let mut j: usize = 0;
    assert(buf@ =~= prefix + joined(messages@.take(0)));
    while j < messages.len()
        invariant
            j <= messages@.len(),
            buf@ == prefix + joined(messages@.take(j as int)),
        decreases messages@.len() - j,
    {
        put_slice(&mut buf, messages[j]);
        proof {
            assert(messages@.take(j + 1).drop_last() =~= messages@.take(j as int));
            assert(buf@ =~= prefix + joined(messages@.take(j + 1)));
        }
        j += 1;
    }
    assert(messages@.take(j as int) =~= messages@);
    assert(buf@ =~= framed(messages@));
    buf
}

/// The length of the message that follows, from the four bytes before it.
pub fn message_length(buf: [u8; 4]) -> (n: u32)
    ensures
        n == be_value(buf@),
{
    be32(buf)
}

// Connections

/// Sixteen bytes that are those of a random UUID, with the first three fields of it in the order
/// of the lowest byte first.
pub open spec fn is_client_id(id: Seq<u8>) -> bool {
    &&& id.len() == 16
    &&& id[7] / 16 == 4
    &&& id[8] / 64 == 2
}

/// Calls `Uuid::new_v4` and `Uuid::to_bytes_le`. The bytes are random, but for the version, which
/// is in the upper half of the eighth byte, and the variant, which is at the top of the ninth.
#[verifier::external_body]
fn random_client_id() -> (id: Vec<u8>)
    ensures
        is_client_id(id@),
{
    uuid::Uuid::new_v4().to_bytes_le().to_vec()
}

/// A connection to a name node: who the client is, and which call comes next.
#[derive(Debug)]
pub struct RpcConnection {
    pub client_id: Vec<u8>,
    pub user_info: UserInfo,
    pub next_call_id: i32,
}

/// The call id after `id`. After the largest comes the smallest.
pub open spec fn following_call_id(id: i32) -> i32 {
    if id == i32::MAX {
        i32::MIN
    } else {
        (id + 1) as i32
    }
}

/// The header of a request.
pub open spec fn connection_header(
    client_id: Seq<u8>,
    context: AlignmentContext,
    call_id: i32,
    retry_count: i32,
) -> RpcRequestHeaderView {
    RpcRequestHeaderView {
        rpc_kind: Some(RPC_PROTOCOL_BUFFER),
        rpc_op: Some(RPC_FINAL_PACKET),
        call_id,
        client_id,
        retry_count: Some(retry_count),
        state_id: Some(context.state_id),
        router_federated_state: router_state_message(context),
    }
}

/// What a connection is for.
pub open spec fn connection_context(user_info: UserInfo) -> IpcConnectionContextView {
    IpcConnectionContextView {
        user_info: Some(
            UserInformationView {
                effective_user: optional_string(user_info.effective_user),
                real_user: optional_string(user_info.real_user),
            },
        ),
        protocol: Some(PROTOCOL@),
    }
}

/// Which method a call is for.
pub open spec fn request_header(method_name: Seq<char>) -> RequestHeaderView {
    RequestHeaderView {
        method_name,
        declaring_class_protocol_name: PROTOCOL@,
        client_protocol_version: CLIENT_PROTOCOL_VERSION,
    }
}

impl RequestHeader {
    /// Which method a call is for.
    pub fn for_method(method_name: &str) -> (r: RequestHeader)
        ensures
            r@ == request_header(method_name@),
    {
        RequestHeader {
            method_name: method_name.to_owned(),
            declaring_class_protocol_name: PROTOCOL.to_owned(),
            client_protocol_version: CLIENT_PROTOCOL_VERSION,
        }
    }
}

/// What a message adds to the size of its frame.
fn message_size(message: &[u8]) -> (n: u64)
    ensures
        n == message@.len() % 0x1_0000_0000,
        n <= u32::MAX,
{
    message.len() as u64 % 0x1_0000_0000
}

/// The size of a frame of two messages.
pub open spec fn frame_size2(a: Seq<u8>, b: Seq<u8>) -> nat {
    a.len() % 0x1_0000_0000 + b.len() % 0x1_0000_0000
}

/// The size of a frame of three messages.
pub open spec fn frame_size3(a: Seq<u8>, b: Seq<u8>, c: Seq<u8>) -> nat {
    frame_size2(a, b) + c.len() % 0x1_0000_0000
}

/// What the client sends once it has authenticated itself: the messages of the frame.
pub open spec fn opening_messages(connection: RpcConnection, context: AlignmentContext) -> (
    Seq<u8>,
    Seq<u8>,
) {
    (
        delimited(
            connection_header(
                connection.client_id@,
                context,
                CONNECTION_CONTEXT_CALL_ID,
                NO_RETRY,
            ).encoded(),
        ),
        delimited(connection_context(connection.user_info).encoded()),
    )
}

/// What the client sends for its next call, before the message of the call itself.
pub open spec fn call_messages(
    connection: RpcConnection,
    context: AlignmentContext,
    method_name: Seq<char>,
) -> (Seq<u8>, Seq<u8>) {
    (
        delimited(
            connection_header(
                connection.client_id@,
                context,
                connection.next_call_id,
                0,
            ).encoded(),
        ),
        delimited(request_header(method_name).encoded()),
    )
}

impl RpcConnection {
    /// A new connection, with a random client id. The first call has the id 0.
    pub fn connect(user_info: UserInfo) -> (r: RpcConnection)
        ensures
            is_client_id(r.client_id@),
            r.user_info == user_info,
            r.next_call_id == 0,
    {
        RpcConnection::with_client_id(random_client_id(), user_info)
    }

    /// A new connection, with the given client id. The first call has the id 0.
    pub fn with_client_id(client_id: Vec<u8>, user_info: UserInfo) -> (r: RpcConnection)
        ensures
            r.client_id == client_id,
            r.user_info == user_info,
            r.next_call_id == 0,
    {
        RpcConnection { client_id, user_info, next_call_id: 0 }
    }

    /// The id of the next call.
    pub fn get_next_call_id(&mut self) -> (r: i32)
        ensures
            r == old(self).next_call_id,
            final(self).next_call_id == following_call_id(old(self).next_call_id),
            final(self).client_id == old(self).client_id,
            final(self).user_info == old(self).user_info,
    {
        let call_id: i32 = self.next_call_id;
        self.next_call_id = call_id.wrapping_add(1);
        call_id
    }

    /// The header of a request.
    pub fn get_connection_header(
        &self,
        context: &AlignmentContext,
        call_id: i32,
        retry_count: i32,
    ) -> (r: RpcRequestHeader)
        ensures
            r@ == connection_header(self.client_id@, *context, call_id, retry_count),
    {
        RpcRequestHeader {
            rpc_kind: Some(RPC_PROTOCOL_BUFFER),
            rpc_op: Some(RPC_FINAL_PACKET),
            call_id,
            client_id: vstd::slice::slice_to_vec(self.client_id.as_slice()),
            retry_count: Some(retry_count),
            state_id: Some(context.state_id),
            router_federated_state: context.encode_router_state(),
        }
    }

    /// What the connection is for.
    pub fn get_connection_context(&self) -> (r: IpcConnectionContext)
        ensures
            r@ == connection_context(self.user_info),
    {
        let user_info = UserInformation {
            effective_user: self.user_info.effective_user.clone(),
            real_user: self.user_info.real_user.clone(),
        };
        IpcConnectionContext { user_info: Some(user_info), protocol: Some(PROTOCOL.to_owned()) }
    }

    /// Whether what the client sends once it has authenticated itself fits in a frame.
    pub fn opening_fits(&self, context: &AlignmentContext) -> (r: bool)
        ensures
            r == (frame_size2(
                opening_messages(*self, *context).0,
                opening_messages(*self, *context).1,
            ) <= u32::MAX),
    {
        let header = self.get_connection_header(
            context,
            CONNECTION_CONTEXT_CALL_ID,
            NO_RETRY,
        ).encode_length_delimited_to_vec();
        let message = self.get_connection_context().encode_length_delimited_to_vec();
        message_size(header.as_slice()) + message_size(message.as_slice()) <= 0xffff_ffff
    }

    /// What the client sends once it has authenticated itself.
    pub fn opening_frame(&self, context: &AlignmentContext) -> (buf: Vec<u8>)
        requires
            frame_size2(
                opening_messages(*self, *context).0,
                opening_messages(*self, *context).1,
            ) <= u32::MAX,
        ensures
            ({
                let (header, message) = opening_messages(*self, *context);
                buf@ == be_bytes(frame_size2(header, message), 4) + header + message
            }),
    {
        let context_header = self.get_connection_header(
            context,
            CONNECTION_CONTEXT_CALL_ID,
            NO_RETRY,
        ).encode_length_delimited_to_vec();
        let context_msg = self.get_connection_context().encode_length_delimited_to_vec();
        let messages: [&[u8]; 2] = [context_header.as_slice(), context_msg.as_slice()];
        proof {
            reveal_with_fuel(frame_size, 3);
            reveal_with_fuel(joined, 3);
            assert(joined(messages@) =~= context_header@ + context_msg@);
            assert(framed(messages@) =~= be_bytes(frame_size(messages@), 4) + context_header@
                + context_msg@);
        }
        write_messages(&messages)
    }

    /// Whether what the client sends for its next call fits in a frame.
    pub fn call_fits(&self, context: &AlignmentContext, method_name: &str, message: &[u8]) -> (r:
        bool)
        ensures
            r == (frame_size3(
                call_messages(*self, *context, method_name@).0,
                call_messages(*self, *context, method_name@).1,
                message@,
            ) <= u32::MAX),
    {
        let header = self.get_connection_header(
            context,
            self.next_call_id,
            0,
        ).encode_length_delimited_to_vec();
        let request = RequestHeader::for_method(method_name).encode_length_delimited_to_vec();
        message_size(header.as_slice()) + message_size(request.as_slice()) + message_size(message)
            <= 0xffff_ffff
    }

    /// Makes the next call: notes who waits for the answer, and returns what the client sends.
    pub fn call<S>(
        &mut self,
        context: &AlignmentContext,
        call_map: &mut HashMap<i32, S>,
        sender: S,
        method_name: &str,
        message: &[u8],
    ) -> (buf: Vec<u8>)
        requires
            frame_size3(
                call_messages(*old(self), *context, method_name@).0,
                call_messages(*old(self), *context, method_name@).1,
                message@,
            ) <= u32::MAX,
        ensures
            final(self).next_call_id == following_call_id(old(self).next_call_id),
            final(self).client_id == old(self).client_id,
            final(self).user_info == old(self).user_info,
            final(call_map)@ == old(call_map)@.insert(old(self).next_call_id, sender),
            ({
                let (header, request) = call_messages(*old(self), *context, method_name@);
                buf@ == be_bytes(frame_size3(header, request, message@), 4) + header + request
                    + message@
            }),
    {
        let call_id = self.get_next_call_id();
        let header = self.get_connection_header(context, call_id, 0);
        let conn_header_buf = header.encode_length_delimited_to_vec();
        let msg_header = RequestHeader::for_method(method_name);
        let header_buf = msg_header.encode_length_delimited_to_vec();
        call_map.insert(call_id, sender);
        let messages: [&[u8]; 3] = [conn_header_buf.as_slice(), header_buf.as_slice(), message];
        proof {
            reveal_with_fuel(frame_size, 4);
            reveal_with_fuel(joined, 4);
            let m = messages@;
            assert(m.drop_last().drop_last().drop_last() =~= Seq::empty());
            assert(joined(m) =~= conn_header_buf@ + header_buf@ + message@);
            assert(framed(m) =~= be_bytes(frame_size(m), 4) + conn_header_buf@ + header_buf@
                + message@);
        }
        write_messages(&messages)
    }

    /// Whether the connection can still be used: its listener was started, and has not finished.
    pub fn is_alive(listener_finished: Option<bool>) -> (r: bool)
        ensures
            r == (listener_finished == Some(false)),
    {
        match listener_finished {
            Some(finished) => !finished,
            None => false,
        }
    }
}

// Responses

/// An answer to a call: who waits for it, and what it is.
pub struct Reply<S> {
    pub call: S,
    pub outcome: Result<Bytes, HdfsError>,
}

/// What is left of the name nodes' answers to do after one was read.
pub enum ListenerStep {
    /// Read the next one.
    Continue,
    /// The server closed the connection: read no more.
    Stop,
    /// The connection is broken.
    Abort(HdfsError),
}

/// The reader of the answers on a connection.
pub struct RpcListener {
    pub alive: bool,
}

/// The id of the call that a response is for.
pub open spec fn answered_call_id(call_id: u32) -> i32 {
    signed32(call_id)
}

/// What becomes of the calls that are waited for, of the state ids and of the answer, when a
/// response with the given header and the given rest comes in.
pub open spec fn answered<S>(
    calls_before: Map<i32, S>,
    calls_after: Map<i32, S>,
    context_before: AlignmentContext,
    context_after: AlignmentContext,
    header: RpcResponseHeaderView,
    payload: Seq<u8>,
    r: Result<Option<Reply<S>>, HdfsError>,
) -> bool {
    let id = answered_call_id(header.call_id);
    let class_name = string_or_empty(header.exception_class_name);
    let error_msg = string_or_empty(header.error_msg);
    let waited_for = calls_before.contains_key(id);
    &&& calls_after == calls_before.remove(id)
    &&& if waited_for && header.status() == RpcStatus::Success {
        updated(context_before, context_after, header.state_id, header.router_federated_state)
    } else {
        context_after == context_before
    }
    &&& if !waited_for {
        r matches Ok(None)
    } else if header.status() == RpcStatus::Error {
        &&& r matches Ok(Some(reply))
        &&& reply.call == calls_before[id]
        &&& reply.outcome matches Err(HdfsError::RPCError(class, msg))
        &&& class@ == class_name
        &&& msg@ == error_msg
    } else if header.status() == RpcStatus::Fatal {
        &&& r matches Err(HdfsError::FatalRPCError(class, msg))
        &&& class@ == class_name
        &&& msg@ == error_msg
    } else if is_states_message(header.router_federated_state) {
        &&& r matches Ok(Some(reply))
        &&& reply.call == calls_before[id]
        &&& reply.outcome matches Ok(bytes)
        &&& contents(bytes) == payload
    } else {
        r matches Err(HdfsError::InvalidRPCResponse)
    }
}

impl RpcListener {
    /// A reader that works.
    pub fn new() -> (r: RpcListener)
        ensures
            r.alive,
    {
        RpcListener { alive: true }
    }

    /// Goes on after an answer was read, or was not.
    pub fn after_response(&mut self, outcome: Result<(), HdfsError>) -> (step: ListenerStep)
        ensures
            match outcome {
                Ok(()) => step is Continue && final(self).alive == old(self).alive,
                Err(HdfsError::IOError(IoErrorKind::UnexpectedEof)) => step is Stop
                    && !final(self).alive,
                Err(error) => step == ListenerStep::Abort(error) && final(self).alive
                    == old(self).alive,
            },
    {
        match outcome {
            Ok(()) => ListenerStep::Continue,
            Err(error) => {
                if let HdfsError::IOError(IoErrorKind::UnexpectedEof) = error {
                    self.alive = false;
                    return ListenerStep::Stop;
                }
                ListenerStep::Abort(error)
            },
        }
    }

    /// Takes in one response: its header and the rest of the message.
    pub fn read_response<S>(
        call_map: &mut HashMap<i32, S>,
        alignment_context: &mut AlignmentContext,
        message: Bytes,
    ) -> (r: Result<Option<Reply<S>>, HdfsError>)
        ensures
            match decoded_delimited::<RpcResponseHeader>(contents(message)) {
                Some((header, payload)) => answered(
                    old(call_map)@,
                    final(call_map)@,
                    *old(alignment_context),
                    *final(alignment_context),
                    header,
                    payload,
                    r,
                ),
                None => {
                    &&& r matches Err(HdfsError::InvalidRPCResponse)
                    &&& final(call_map)@ == old(call_map)@
                    &&& *final(alignment_context) == *old(alignment_context)
                },
            },
    {
        let mut bytes = message;
        let whole = bytes_as_slice(&bytes);
        let (rpc_response, rest) = decode_length_delimited::<RpcResponseHeader>(whole)?;
        let consumed: usize = whole.len() - rest.len();
        proof {
            lemma_decoded_delimited_rest(whole@);
        }
        let _header = bytes_split_to(&mut bytes, consumed);
        RpcListener::answer(call_map, alignment_context, rpc_response, bytes)
    }

    /// Acts on one response. The call that it is for is no longer waited for. Where nobody waits
    /// for it, it is dropped. Where it reports success, the state ids that it came with are taken
    /// over and the rest of the message is the answer; where it reports an error, the error is;
    /// where it reports a fatal one, the connection is lost.
    pub fn answer<S>(
        call_map: &mut HashMap<i32, S>,
        alignment_context: &mut AlignmentContext,
        rpc_response: RpcResponseHeader,
        payload: Bytes,
    ) -> (r: Result<Option<Reply<S>>, HdfsError>)
        ensures
            answered(
                old(call_map)@,
                final(call_map)@,
                *old(alignment_context),
                *final(alignment_context),
                rpc_response@,
                contents(payload),
                r,
            ),
    {
        let call_id = to_signed32(rpc_response.call_id);
        let call = call_map.remove(&call_id);
        if let Some(call) = call {
            match rpc_response.status() {
                RpcStatus::Success => {
                    alignment_context.update(
                        rpc_response.state_id,
                        rpc_response.router_federated_state,
                    )?;
                    Ok(Some(Reply { call, outcome: Ok(payload) }))
                },
                RpcStatus::Error => {
                    let class = rpc_response.exception_class_name().to_owned();
                    let msg = rpc_response.error_msg().to_owned();
                    Ok(Some(Reply { call, outcome: Err(HdfsError::RPCError(class, msg)) }))
                },
                RpcStatus::Fatal => {
                    let class = rpc_response.exception_class_name().to_owned();
                    let msg = rpc_response.error_msg().to_owned();
                    Err(HdfsError::FatalRPCError(class, msg))
                },
            }
        } else {
            Ok(None)
        }
    }
}

/// What is left after a message is the end of the bytes it was read from.
proof fn lemma_decoded_delimited_rest(s: Seq<u8>)
    ensures
        decoded_delimited::<RpcResponseHeader>(s) matches Some((_, rest)) ==> rest.len() <= s.len()
            && rest == s.skip(s.len() - rest.len()),
{
    lemma_read_delimited_rest(s);
}

// Laws

/// The id of the call that comes `n` calls after the one with the id `first`.
pub open spec fn later_call_id(first: i32, n: nat) -> i32
    decreases n,
{
    if n == 0 {
        first
    } else {
        following_call_id(later_call_id(first, (n - 1) as nat))
    }
}

/// No two calls of a connection have the same id, up to the number of ids that there are.
pub proof fn law_call_ids_differ(first: i32, i: nat, j: nat)
    requires
        i < j < i + 0x1_0000_0000,
    ensures
        later_call_id(first, i) != later_call_id(first, j),
{
    lemma_later_call_id(first, i);
    lemma_later_call_id(first, j);
}

proof fn lemma_later_call_id(first: i32, n: nat)
    ensures
        (later_call_id(first, n) - first - n) % 0x1_0000_0000 == 0,
    decreases n,
{
    if n > 0 {
        lemma_later_call_id(first, (n - 1) as nat);
    }
}

/// A response with the id of a call reaches the one who made the call, whoever else waits: the
/// rest of the message where the response reports success, the error where it reports one.
pub proof fn law_response_reaches_its_call<S>(
    calls: Map<i32, S>,
    calls_after: Map<i32, S>,
    context: AlignmentContext,
    context_after: AlignmentContext,
    id: i32,
    sender: S,
    header: RpcResponseHeaderView,
    payload: Seq<u8>,
    r: Result<Option<Reply<S>>, HdfsError>,
)
    requires
        header.call_id == unsigned32(id),
        answered(
            calls.insert(id, sender),
            calls_after,
            context,
            context_after,
            header,
            payload,
            r,
        ),
    ensures
        header.status() == RpcStatus::Success && is_states_message(header.router_federated_state)
            ==> {
            &&& r matches Ok(Some(reply))
            &&& reply.call == sender
            &&& reply.outcome matches Ok(bytes)
            &&& contents(bytes) == payload
        },
        header.status() == RpcStatus::Error ==> {
            &&& r matches Ok(Some(reply))
            &&& reply.call == sender
            &&& reply.outcome matches Err(HdfsError::RPCError(class, msg))
            &&& class@ == string_or_empty(header.exception_class_name)
            &&& msg@ == string_or_empty(header.error_msg)
        },
        calls_after == calls.remove(id),
{
    assert(calls.insert(id, sender).remove(id) =~= calls.remove(id));
}

/// A second response to the same call is dropped and changes nothing.
pub proof fn law_a_call_is_answered_once<S>(
    calls: Map<i32, S>,
    calls_after: Map<i32, S>,
    calls_last: Map<i32, S>,
    context: AlignmentContext,
    context_after: AlignmentContext,
    context_last: AlignmentContext,
    header: RpcResponseHeaderView,
    payload: Seq<u8>,
    again: RpcResponseHeaderView,
    payload_again: Seq<u8>,
    r: Result<Option<Reply<S>>, HdfsError>,
    r_again: Result<Option<Reply<S>>, HdfsError>,
)
    requires
        again.call_id == header.call_id,
        answered(calls, calls_after, context, context_after, header, payload, r),
        answered(
            calls_after,
            calls_last,
            context_after,
            context_last,
            again,
            payload_again,
            r_again,
        ),
    ensures
        r_again matches Ok(None),
        calls_last == calls_after,
        context_last == context_after,
{
    assert(calls_last =~= calls_after);
}

/// The response to one call leaves every other call waited for.
pub proof fn law_other_calls_stay<S>(
    calls: Map<i32, S>,
    calls_after: Map<i32, S>,
    context: AlignmentContext,
    context_after: AlignmentContext,
    header: RpcResponseHeaderView,
    payload: Seq<u8>,
    r: Result<Option<Reply<S>>, HdfsError>,
    other: i32,
)
    requires
        answered(calls, calls_after, context, context_after, header, payload, r),
        other != answered_call_id(header.call_id),
    ensures
        calls_after.contains_key(other) <==> calls.contains_key(other),
        calls.contains_key(other) ==> calls_after[other] == calls[other],
{
}

/// The size at the start of a frame is the number of bytes that follow it.
pub proof fn law_frame_size_is_what_follows(messages: Seq<&[u8]>)
    requires
        joined(messages).len() <= u32::MAX,
    ensures
        framed(messages).len() == 4 + joined(messages).len(),
        be_value(framed(messages).take(4)) == joined(messages).len(),
        framed(messages).skip(4) == joined(messages),
{
    lemma_frame_size(messages);
    reveal_with_fuel(pow256, 5);
    lemma_be_round_trip(frame_size(messages), 4);
    assert(framed(messages).take(4) =~= be_bytes(frame_size(messages), 4));
    assert(framed(messages).skip(4) =~= joined(messages));
}

proof fn lemma_frame_size(messages: Seq<&[u8]>)
    requires
        joined(messages).len() <= u32::MAX,
    ensures
        frame_size(messages) == joined(messages).len(),
    decreases messages.len(),
{
    if messages.len() > 0 {
        lemma_frame_size(messages.drop_last());
    }
}

/// The call ids of a connection count up by one from the first, and come round after all of them.
pub proof fn law_call_ids_count_up(first: i32, n: nat)
    ensures
        (later_call_id(first, n) - first - n) % 0x1_0000_0000 == 0,
        first + n <= i32::MAX ==> later_call_id(first, n) == first + n,
{
    lemma_later_call_id(first, n);
}

/// Messages are joined in order: those of one list, then those of the other.
pub proof fn law_messages_are_joined_in_order(a: Seq<&[u8]>, b: Seq<&[u8]>, message: &[u8])
    ensures
        joined(seq![message]) == message@,
        joined(a + b) == joined(a) + joined(b),
    decreases b.len(),
{
    reveal_with_fuel(joined, 2);
    assert(seq![message].drop_last() =~= Seq::empty());
    assert(joined(seq![message]) =~= message@);
    if b.len() > 0 {
        law_messages_are_joined_in_order(a, b.drop_last(), message);
        assert((a + b).drop_last() =~= a + b.drop_last());
    } else {
        assert(a + b =~= a);
    }
    assert(joined(a + b) =~= joined(a) + joined(b));
}

/// Some bytes after the size of all of them can be told apart again.
proof fn lemma_frame(size: nat, body: Seq<u8>, buf: Seq<u8>)
    requires
        buf == be_bytes(size, 4) + body,
        size == body.len(),
        size <= u32::MAX,
    ensures
        be_value(buf.take(4)) == buf.len() - 4,
        buf.skip(4) == body,
{
    reveal_with_fuel(pow256, 5);
    lemma_be_round_trip(size, 4);
    assert(buf.take(4) =~= be_bytes(size, 4));
    assert(buf.skip(4) =~= body);
}

/// What the client sends for a call says all of it: how many bytes follow, then a message with
/// the call id under which the answer is waited for, the client and the states that it has seen,
/// then a message with the method, then the message of the call.
pub proof fn law_call_on_the_wire(
    connection: RpcConnection,
    context: AlignmentContext,
    method_name: Seq<char>,
    message: Seq<u8>,
    buf: Seq<u8>,
)
    requires
        ({
            let (header, request) = call_messages(connection, context, method_name);
            &&& buf == be_bytes(frame_size3(header, request, message), 4) + header + request
                + message
            &&& header.len() + request.len() + message.len() <= u32::MAX
        }),
        connection.client_id@.len() <= u64::MAX,
        router_state_message(context) matches Some(b) ==> b.len() <= u64::MAX,
        encode_utf8(method_name).len() <= u64::MAX,
        encode_utf8(PROTOCOL@).len() <= u64::MAX,
    ensures
        be_value(buf.take(4)) == buf.len() - 4,
        read_delimited(buf.skip(4)) matches Some((first, after)) && {
            &&& read_fields(first) == Some(
                seq![
                    (1u32, FieldValue::Integer(2)),
                    (2u32, FieldValue::Integer(0)),
                    (3u32, FieldValue::Integer(zigzag(connection.next_call_id) as u64)),
                    (4u32, FieldValue::Raw(connection.client_id@)),
                    (5u32, FieldValue::Integer(0)),
                    (8u32, FieldValue::Integer(unsigned64(context.state_id))),
                ] + optional_field(9, raw(router_state_message(context))),
            )
            &&& read_delimited(after) matches Some((second, last))
            &&& read_fields(second) == Some(
                seq![
                    (1u32, FieldValue::Raw(encode_utf8(method_name))),
                    (2u32, FieldValue::Raw(encode_utf8(PROTOCOL@))),
                    (3u32, FieldValue::Integer(1)),
                ],
            )
            &&& last == message
        },
{
    let (header, request) = call_messages(connection, context, method_name);
    let h = connection_header(connection.client_id@, context, connection.next_call_id, 0);
    let q = request_header(method_name);
    assert(buf =~= be_bytes(frame_size3(header, request, message), 4) + (header + (request
        + message)));
    lemma_frame(frame_size3(header, request, message), header + (request + message), buf);
    lemma_delimited_round_trip(h.encoded(), request + message);
    lemma_delimited_round_trip(q.encoded(), message);
    lemma_header_fields(connection.client_id@, context, connection.next_call_id, 0);
    law_method_on_the_wire(q);
}

/// What the client sends to open a connection says who it is: how many bytes follow, then a
/// message with the call id -3, the retry count -1 and the client, then one with the users and
/// the protocol.
pub proof fn law_opening_on_the_wire(
    connection: RpcConnection,
    context: AlignmentContext,
    buf: Seq<u8>,
)
    requires
        ({
            let (header, message) = opening_messages(connection, context);
            &&& buf == be_bytes(frame_size2(header, message), 4) + header + message
            &&& header.len() + message.len() <= u32::MAX
        }),
        connection.client_id@.len() <= u64::MAX,
        router_state_message(context) matches Some(b) ==> b.len() <= u64::MAX,
        fits(optional_string(connection.user_info.effective_user)),
        fits(optional_string(connection.user_info.real_user)),
        connection_context(connection.user_info).user_info.unwrap().encoded().len() <= u64::MAX,
        encode_utf8(PROTOCOL@).len() <= u64::MAX,
    ensures
        be_value(buf.take(4)) == buf.len() - 4,
        read_delimited(buf.skip(4)) matches Some((first, after)) && {
            &&& read_fields(first) == Some(
                seq![
                    (1u32, FieldValue::Integer(2)),
                    (2u32, FieldValue::Integer(0)),
                    (3u32, FieldValue::Integer(5)),
                    (4u32, FieldValue::Raw(connection.client_id@)),
                    (5u32, FieldValue::Integer(1)),
                    (8u32, FieldValue::Integer(unsigned64(context.state_id))),
                ] + optional_field(9, raw(router_state_message(context))),
            )
            &&& read_delimited(after) matches Some((second, last))
            &&& last.len() == 0
            &&& read_fields(second) matches Some(fields)
            &&& fields.len() == 2
            &&& fields[0].0 == 2
            &&& fields[0].1 matches FieldValue::Raw(users)
            &&& read_fields(users) == Some(
                optional_field(
                    1,
                    match connection.user_info.effective_user {
                        Some(user) => Some(FieldValue::Raw(encode_utf8(user@))),
                        None => None,
                    },
                ) + optional_field(
                    2,
                    match connection.user_info.real_user {
                        Some(user) => Some(FieldValue::Raw(encode_utf8(user@))),
                        None => None,
                    },
                ),
            )
            &&& fields[1] == (3u32, FieldValue::Raw(encode_utf8(PROTOCOL@)))
        },
{
    let (header, message) = opening_messages(connection, context);
    let h = connection_header(
        connection.client_id@,
        context,
        CONNECTION_CONTEXT_CALL_ID,
        NO_RETRY,
    );
    let c = connection_context(connection.user_info);
    let none = Seq::<u8>::empty();
    assert(buf =~= be_bytes(frame_size2(header, message), 4) + (header + (message + none)));
    lemma_frame(frame_size2(header, message), header + (message + none), buf);
    lemma_delimited_round_trip(h.encoded(), message + none);
    lemma_delimited_round_trip(c.encoded(), none);
    lemma_header_fields(
        connection.client_id@,
        context,
        CONNECTION_CONTEXT_CALL_ID,
        NO_RETRY,
    );
    law_connection_context_on_the_wire(c);
    law_users_on_the_wire(c.user_info.unwrap());
}

/// The fields of the header of a request.
proof fn lemma_header_fields(
    client_id: Seq<u8>,
    context: AlignmentContext,
    call_id: i32,
    retry_count: i32,
)
    requires
        client_id.len() <= u64::MAX,
        router_state_message(context) matches Some(b) ==> b.len() <= u64::MAX,
    ensures
        read_fields(connection_header(client_id, context, call_id, retry_count).encoded()) == Some(
            seq![
                (1u32, FieldValue::Integer(2)),
                (2u32, FieldValue::Integer(0)),
                (3u32, FieldValue::Integer(zigzag(call_id) as u64)),
                (4u32, FieldValue::Raw(client_id)),
                (5u32, FieldValue::Integer(zigzag(retry_count) as u64)),
                (8u32, FieldValue::Integer(unsigned64(context.state_id))),
            ] + optional_field(9, raw(router_state_message(context))),
        ),
{
    let h = connection_header(client_id, context, call_id, retry_count);
    law_request_header_on_the_wire(h);
    let f1 = (1u32, FieldValue::Integer(2));
    let f2 = (2u32, FieldValue::Integer(0));
    let f3 = (3u32, FieldValue::Integer(zigzag(call_id) as u64));
    let f4 = (4u32, FieldValue::Raw(client_id));
    let f5 = (5u32, FieldValue::Integer(zigzag(retry_count) as u64));
    let f8 = (8u32, FieldValue::Integer(unsigned64(context.state_id)));
    let f9 = optional_field(9, raw(router_state_message(context)));
    assert(optional_field(1, signed(widened(h.rpc_kind))) == seq![f1]);
    assert(optional_field(2, signed(widened(h.rpc_op))) == seq![f2]);
    assert(optional_field(8, signed(h.state_id)) == seq![f8]);
    assert(seq![f1] + (seq![f2] + (seq![f3] + (seq![f4] + (seq![f5] + (seq![f8] + f9))))) =~= seq![
        f1,
        f2,
        f3,
        f4,
        f5,
        f8,
    ] + f9);
}

/// A response that a server wrote for a call reaches the one who made the call, whoever else
/// waits: the rest of the message where its status is neither 1 nor 2, the error where it is 1. A
/// status of 2 is an error of the whole connection. Nobody waits for the call any more.
pub proof fn law_written_response_reaches_its_call<S>(
    calls: Map<i32, S>,
    calls_after: Map<i32, S>,
    context: AlignmentContext,
    context_after: AlignmentContext,
    id: i32,
    sender: S,
    header: RpcResponseHeaderView,
    payload: Seq<u8>,
    r: Result<Option<Reply<S>>, HdfsError>,
)
    requires
        header.call_id == unsigned32(id),
        fits(header.exception_class_name),
        fits(header.error_msg),
        header.client_id matches Some(b) ==> b.len() <= u64::MAX,
        header.router_federated_state matches Some(b) ==> b.len() <= u64::MAX,
        response_bytes(header).len() <= u64::MAX,
        decoded_delimited::<RpcResponseHeader>(
            delimited(response_bytes(header)) + payload,
        ) matches Some((read, left)) ==> answered(
            calls.insert(id, sender),
            calls_after,
            context,
            context_after,
            read,
            left,
            r,
        ),
    ensures
        decoded_delimited::<RpcResponseHeader>(delimited(response_bytes(header)) + payload)
            == Some((header, payload)),
        header.status != 1 && header.status != 2 && (header.router_federated_state matches Some(b)
            ==> decoded::<NamespaceStates>(b) is Some) ==> {
            &&& r matches Ok(Some(reply))
            &&& reply.call == sender
            &&& reply.outcome matches Ok(bytes)
            &&& contents(bytes) == payload
        },
        header.status == 1 ==> {
            &&& r matches Ok(Some(reply))
            &&& reply.call == sender
            &&& reply.outcome matches Err(HdfsError::RPCError(class, msg))
            &&& header.exception_class_name == Some(class@) || (header.exception_class_name is None
                && class@.len() == 0)
            &&& header.error_msg == Some(msg@) || (header.error_msg is None && msg@.len() == 0)
        },
        header.status == 2 ==> {
            &&& r matches Err(HdfsError::FatalRPCError(class, msg))
            &&& header.exception_class_name == Some(class@) || (header.exception_class_name is None
                && class@.len() == 0)
            &&& header.error_msg == Some(msg@) || (header.error_msg is None && msg@.len() == 0)
        },
        calls_after == calls.remove(id),
{
    law_response_header_is_read_back(header);
    law_delimited_message::<RpcResponseHeader>(response_bytes(header), payload);
    assert(calls.insert(id, sender).remove(id) =~= calls.remove(id));
}

/// What a response says of the state is taken over where somebody waits for it and it reports
/// success, and only there. A response that nobody waits for changes nothing.
pub proof fn law_only_success_brings_a_state<S>(
    calls: Map<i32, S>,
    calls_after: Map<i32, S>,
    context: AlignmentContext,
    context_after: AlignmentContext,
    header: RpcResponseHeaderView,
    payload: Seq<u8>,
    r: Result<Option<Reply<S>>, HdfsError>,
    id: i32,
)
    requires
        header.call_id == unsigned32(id),
        answered(calls, calls_after, context, context_after, header, payload, r),
    ensures
        calls.contains_key(id) && header.status != 1 && header.status != 2 ==> updated(
            context,
            context_after,
            header.state_id,
            header.router_federated_state,
        ),
        !calls.contains_key(id) || header.status == 1 || header.status == 2 ==> context_after
            == context,
        !calls.contains_key(id) ==> calls_after == calls && r matches Ok(None),
        !is_states_message(header.router_federated_state) && calls.contains_key(id)
            && header.status != 1 && header.status != 2 ==> r matches Err(
            HdfsError::InvalidRPCResponse,
        ),
{
    if !calls.contains_key(id) {
        assert(calls_after =~= calls);
    }
}

/// A connection starts with the letters of its protocol.
pub proof fn law_preamble()
    ensures
        preamble_bytes() == encode_utf8("hrpc"@) + seq![9u8, 0, 0xdf],
{
    reveal_strlit("hrpc");
    vstd::utf8::is_ascii_chars_encode_utf8("hrpc"@);
    assert(preamble_bytes() =~= encode_utf8("hrpc"@) + seq![9u8, 0, 0xdf]);
}

/// Messages that are not too long count in the size of a frame with all of their bytes.
pub proof fn law_messages_count_with_all_bytes(a: Seq<u8>, b: Seq<u8>, c: Seq<u8>)
    requires
        a.len() <= u32::MAX,
        b.len() <= u32::MAX,
        c.len() <= u32::MAX,
    ensures
        frame_size2(a, b) == a.len() + b.len(),
        frame_size3(a, b, c) == a.len() + b.len() + c.len(),
{
}

} // verus!
