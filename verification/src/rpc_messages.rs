//! The messages of the RPC protocol of Hadoop.

use vstd::prelude::*;
use vstd::utf8::encode_utf8;
use crate::error::HdfsError;
use crate::fields::{
    integer, lemma_read_bytes_field, lemma_read_integer_field, lemma_read_optional_bytes,
    lemma_read_optional_integer, lemma_read_optional_string, optional_field, raw, read_fields,
    signed, text, widened, Field, FieldValue,
};
use crate::integers::{
    from_zigzag, low32, signed32, signed64, to_low32, to_signed32, to_signed64, to_unsigned64,
    to_zigzag, unsigned64, unzigzag, zigzag,
};
use crate::message::{
    decoded, delimit, lemma_any_first, lemma_bytes_first, lemma_integer_first, lemma_string_first,
    pass_nested_field, passes_over, refuses_bytes, refuses_integer, skip_nested_field, with_fields,
    Message,
};
use crate::wire::{
    bytes_field, delimited, get_bytes, get_integer, get_string, integer_field,
    lemma_read_varint_shrinks, optional_bytes, optional_bytes_field, optional_integer_field,
    optional_string, optional_string_field, put_bytes_field, put_integer_field,
    put_optional_bytes_field, put_optional_integer_field, put_optional_string_field,
    put_string_field, read_bytes, read_integer, read_string, string_field,
};

verus! {

/// The name of the protocol that the client speaks.
pub const PROTOCOL: &'static str = "org.apache.hadoop.hdfs.protocol.ClientProtocol";

/// The kind of RPC whose messages are protocol buffers.
pub const RPC_PROTOCOL_BUFFER: i32 = 2;

/// The operation of a request that is sent in one piece.
pub const RPC_FINAL_PACKET: i32 = 0;

/// The user on whose behalf a connection works.
pub struct UserInformation {
    pub effective_user: Option<String>,
    pub real_user: Option<String>,
}

/// What a `UserInformation` says.
pub struct UserInformationView {
    pub effective_user: Option<Seq<char>>,
    pub real_user: Option<Seq<char>>,
}

impl View for UserInformation {
    type V = UserInformationView;

    open spec fn view(&self) -> UserInformationView {
        UserInformationView {
            effective_user: optional_string(self.effective_user),
            real_user: optional_string(self.real_user),
        }
    }
}

impl UserInformationView {
    /// The bytes of the message.
    pub open spec fn encoded(self) -> Seq<u8> {
        optional_string_field(1, self.effective_user) + optional_string_field(2, self.real_user)
    }
}

impl UserInformation {
    /// The bytes of the message.
    pub fn encode_to_vec(&self) -> (r: Vec<u8>)
        ensures
            r@ == self@.encoded(),
    {
        let mut r: Vec<u8> = Vec::new();
        put_optional_string_field(&mut r, 1, &self.effective_user);
        put_optional_string_field(&mut r, 2, &self.real_user);
        assert(r@ =~= self@.encoded());
        r
    }
}

/// What a connection is for.
pub struct IpcConnectionContext {
    pub user_info: Option<UserInformation>,
    pub protocol: Option<String>,
}

/// What an `IpcConnectionContext` says.
pub struct IpcConnectionContextView {
    pub user_info: Option<UserInformationView>,
    pub protocol: Option<Seq<char>>,
}

impl View for IpcConnectionContext {
    type V = IpcConnectionContextView;

    open spec fn view(&self) -> IpcConnectionContextView {
        IpcConnectionContextView {
            user_info: match self.user_info {
                Some(user_info) => Some(user_info@),
                None => None,
            },
            protocol: optional_string(self.protocol),
        }
    }
}

impl IpcConnectionContextView {
    /// The bytes of the message.
    pub open spec fn encoded(self) -> Seq<u8> {
        (match self.user_info {
            Some(user_info) => bytes_field(2, user_info.encoded()),
            None => Seq::empty(),
        }) + optional_string_field(3, self.protocol)
    }
}

impl IpcConnectionContext {
    /// The bytes of the message, after their number.
    pub fn encode_length_delimited_to_vec(&self) -> (r: Vec<u8>)
        ensures
            r@ == delimited(self@.encoded()),
    {
        let mut r: Vec<u8> = Vec::new();
        if let Some(user_info) = &self.user_info {
            put_bytes_field(&mut r, 2, user_info.encode_to_vec().as_slice());
        }
        let ghost first = r@;
        put_optional_string_field(&mut r, 3, &self.protocol);
        proof {
            assert(first =~= match self@.user_info {
                Some(user_info) => bytes_field(2, user_info.encoded()),
                None => Seq::empty(),
            });
            assert(r@ =~= self@.encoded());
        }
        delimit(r.as_slice())
    }
}

/// Which method of which protocol a call is for.
pub struct RequestHeader {
    pub method_name: String,
    pub declaring_class_protocol_name: String,
    pub client_protocol_version: u64,
}

/// What a `RequestHeader` says.
pub struct RequestHeaderView {
    pub method_name: Seq<char>,
    pub declaring_class_protocol_name: Seq<char>,
    pub client_protocol_version: u64,
}

impl View for RequestHeader {
    type V = RequestHeaderView;

    open spec fn view(&self) -> RequestHeaderView {
        RequestHeaderView {
            method_name: self.method_name@,
            declaring_class_protocol_name: self.declaring_class_protocol_name@,
            client_protocol_version: self.client_protocol_version,
        }
    }
}

impl RequestHeaderView {
    /// The bytes of the message.
    pub open spec fn encoded(self) -> Seq<u8> {
        string_field(1, self.method_name) + string_field(2, self.declaring_class_protocol_name)
            + integer_field(3, self.client_protocol_version)
    }
}

impl RequestHeader {
    /// The bytes of the message, after their number.
    pub fn encode_length_delimited_to_vec(&self) -> (r: Vec<u8>)
        ensures
            r@ == delimited(self@.encoded()),
    {
        let mut r: Vec<u8> = Vec::new();
        put_string_field(&mut r, 1, self.method_name.as_str());
        put_string_field(&mut r, 2, self.declaring_class_protocol_name.as_str());
        put_integer_field(&mut r, 3, self.client_protocol_version);
        assert(r@ =~= self@.encoded());
        delimit(r.as_slice())
    }
}

/// The header of everything that the client sends. It carries neither a trace nor a caller
/// context.
pub struct RpcRequestHeader {
    pub rpc_kind: Option<i32>,
    pub rpc_op: Option<i32>,
    pub call_id: i32,
    pub client_id: Vec<u8>,
    pub retry_count: Option<i32>,
    pub state_id: Option<i64>,
    pub router_federated_state: Option<Vec<u8>>,
}

/// What an `RpcRequestHeader` says.
pub struct RpcRequestHeaderView {
    pub rpc_kind: Option<i32>,
    pub rpc_op: Option<i32>,
    pub call_id: i32,
    pub client_id: Seq<u8>,
    pub retry_count: Option<i32>,
    pub state_id: Option<i64>,
    pub router_federated_state: Option<Seq<u8>>,
}

impl View for RpcRequestHeader {
    type V = RpcRequestHeaderView;

    open spec fn view(&self) -> RpcRequestHeaderView {
        RpcRequestHeaderView {
            rpc_kind: self.rpc_kind,
            rpc_op: self.rpc_op,
            call_id: self.call_id,
            client_id: self.client_id@,
            retry_count: self.retry_count,
            state_id: self.state_id,
            router_federated_state: optional_bytes(self.router_federated_state),
        }
    }
}

/// An optional number as the integer of its field.
pub open spec fn integer32(v: Option<i32>) -> Option<u64> {
    match v {
        Some(v) => Some(unsigned64(v as i64)),
        None => None,
    }
}

/// An optional number as the integer of its field.
pub open spec fn integer64(v: Option<i64>) -> Option<u64> {
    match v {
        Some(v) => Some(unsigned64(v)),
        None => None,
    }
}

/// An optional number as the integer of a field where small absolute values are to stay small.
pub open spec fn zigzag_integer(v: Option<i32>) -> Option<u64> {
    match v {
        Some(v) => Some(zigzag(v) as u64),
        None => None,
    }
}

impl RpcRequestHeaderView {
    /// The bytes of the message.
    pub open spec fn encoded(self) -> Seq<u8> {
        optional_integer_field(1, integer32(self.rpc_kind)) + optional_integer_field(
            2,
            integer32(self.rpc_op),
        ) + integer_field(3, zigzag(self.call_id) as u64) + bytes_field(4, self.client_id)
            + optional_integer_field(5, zigzag_integer(self.retry_count)) + optional_integer_field(
            8,
            integer64(self.state_id),
        ) + optional_bytes_field(9, self.router_federated_state)
    }
}

impl RpcRequestHeader {
    /// The bytes of the message, after their number.
    pub fn encode_length_delimited_to_vec(&self) -> (r: Vec<u8>)
        ensures
            r@ == delimited(self@.encoded()),
    {
        let mut r: Vec<u8> = Vec::new();
        put_optional_integer_field(&mut r, 1, to_integer32(self.rpc_kind));
        put_optional_integer_field(&mut r, 2, to_integer32(self.rpc_op));
        put_integer_field(&mut r, 3, to_zigzag(self.call_id) as u64);
        put_bytes_field(&mut r, 4, self.client_id.as_slice());
        put_optional_integer_field(&mut r, 5, to_zigzag_integer(self.retry_count));
        put_optional_integer_field(&mut r, 8, to_integer64(self.state_id));
        put_optional_bytes_field(&mut r, 9, &self.router_federated_state);
        assert(r@ =~= self@.encoded());
        delimit(r.as_slice())
    }
}

fn to_integer32(v: Option<i32>) -> (r: Option<u64>)
    ensures
        r == integer32(v),
{
    match v {
        Some(v) => Some(to_unsigned64(v as i64)),
        None => None,
    }
}

fn to_integer64(v: Option<i64>) -> (r: Option<u64>)
    ensures
        r == integer64(v),
{
    match v {
        Some(v) => Some(to_unsigned64(v)),
        None => None,
    }
}

fn to_zigzag_integer(v: Option<i32>) -> (r: Option<u64>)
    ensures
        r == zigzag_integer(v),
{
    match v {
        Some(v) => Some(to_zigzag(v) as u64),
        None => None,
    }
}

/// How a call ended on the server.
#[derive(Clone, Copy, Debug, PartialEq, Eq, Structural)]
pub enum RpcStatus {
    Success,
    Error,
    Fatal,
}

/// The header of a response.
pub struct RpcResponseHeader {
    pub call_id: u32,
    pub status: i32,
    pub server_ipc_version_num: Option<u32>,
    pub exception_class_name: Option<String>,
    pub error_msg: Option<String>,
    pub error_detail: Option<i32>,
    pub client_id: Option<Vec<u8>>,
    pub retry_count: Option<i32>,
    pub state_id: Option<i64>,
    pub router_federated_state: Option<Vec<u8>>,
}

/// What the header of a response says.
pub struct RpcResponseHeaderView {
    pub call_id: u32,
    pub status: i32,
    pub server_ipc_version_num: Option<u32>,
    pub exception_class_name: Option<Seq<char>>,
    pub error_msg: Option<Seq<char>>,
    pub error_detail: Option<i32>,
    pub client_id: Option<Seq<u8>>,
    pub retry_count: Option<i32>,
    pub state_id: Option<i64>,
    pub router_federated_state: Option<Seq<u8>>,
}

impl View for RpcResponseHeader {
    type V = RpcResponseHeaderView;

    open spec fn view(&self) -> RpcResponseHeaderView {
        RpcResponseHeaderView {
            call_id: self.call_id,
            status: self.status,
            server_ipc_version_num: self.server_ipc_version_num,
            exception_class_name: optional_string(self.exception_class_name),
            error_msg: optional_string(self.error_msg),
            error_detail: self.error_detail,
            client_id: optional_bytes(self.client_id),
            retry_count: self.retry_count,
            state_id: self.state_id,
            router_federated_state: optional_bytes(self.router_federated_state),
        }
    }
}

/// A string that may be missing, or the empty one.
pub open spec fn string_or_empty(v: Option<Seq<char>>) -> Seq<char> {
    match v {
        Some(v) => v,
        None => Seq::empty(),
    }
}

impl RpcResponseHeaderView {
    /// How the call ended. A number that stands for nothing counts as success.
    pub open spec fn status(self) -> RpcStatus {
        if self.status == 1 {
            RpcStatus::Error
        } else if self.status == 2 {
            RpcStatus::Fatal
        } else {
            RpcStatus::Success
        }
    }
}

impl RpcResponseHeader {
    /// How the call ended. A number that stands for nothing counts as success.
    pub fn status(&self) -> (r: RpcStatus)
        ensures
            r == self@.status(),
    {
        if self.status == 1 {
            RpcStatus::Error
        } else if self.status == 2 {
            RpcStatus::Fatal
        } else {
            RpcStatus::Success
        }
    }

    /// The class of the exception that the server reports, or the empty string.
    pub fn exception_class_name(&self) -> (r: &str)
        ensures
            r@ == string_or_empty(self@.exception_class_name),
    {
        match &self.exception_class_name {
            Some(name) => name.as_str(),
            None => {
                proof {
                    reveal_strlit("");
                }
                assert(""@ =~= Seq::<char>::empty());
                ""
            },
        }
    }

    /// The message of the exception that the server reports, or the empty string.
    pub fn error_msg(&self) -> (r: &str)
        ensures
            r@ == string_or_empty(self@.error_msg),
    {
        match &self.error_msg {
            Some(msg) => msg.as_str(),
            None => {
                proof {
                    reveal_strlit("");
                }
                assert(""@ =~= Seq::<char>::empty());
                ""
            },
        }
    }
}

impl Message for RpcResponseHeader {
    open spec fn blank() -> RpcResponseHeaderView {
        RpcResponseHeaderView {
            call_id: 0,
            status: 0,
            server_ipc_version_num: None,
            exception_class_name: None,
            error_msg: None,
            error_detail: None,
            client_id: None,
            retry_count: None,
            state_id: None,
            router_federated_state: None,
        }
    }

    open spec fn with_field(m: RpcResponseHeaderView, tag: u32, wire: u8, s: Seq<u8>) -> Option<
        (RpcResponseHeaderView, Seq<u8>),
    > {
        if tag == 1 || tag == 2 || tag == 3 || tag == 6 || tag == 8 || tag == 9 {
            match read_integer(wire, s) {
                Some((v, rest)) => Some((with_integer(m, tag, v), rest)),
                None => None,
            }
        } else if tag == 4 || tag == 5 {
            match read_string(wire, s) {
                Some((v, rest)) => if tag == 4 {
                    Some((RpcResponseHeaderView { exception_class_name: Some(v), ..m }, rest))
                } else {
                    Some((RpcResponseHeaderView { error_msg: Some(v), ..m }, rest))
                },
                None => None,
            }
        } else if tag == 7 || tag == 10 {
            match read_bytes(wire, s) {
                Some((v, rest)) => if tag == 7 {
                    Some((RpcResponseHeaderView { client_id: Some(v), ..m }, rest))
                } else {
                    Some((RpcResponseHeaderView { router_federated_state: Some(v), ..m }, rest))
                },
                None => None,
            }
        } else {
            match skip_nested_field(1, tag, wire, s) {
                Some(rest) => Some((m, rest)),
                None => None,
            }
        }
    }

    fn new_blank() -> (m: RpcResponseHeader) {
        RpcResponseHeader {
            call_id: 0,
            status: 0,
            server_ipc_version_num: None,
            exception_class_name: None,
            error_msg: None,
            error_detail: None,
            client_id: None,
            retry_count: None,
            state_id: None,
            router_federated_state: None,
        }
    }

    fn merge_field<'a>(&mut self, tag: u32, wire: u8, buf: &'a [u8]) -> (r: Result<
        &'a [u8],
        HdfsError,
    >) {
        proof {
            lemma_read_varint_shrinks(buf@);
        }
        if tag == 1 || tag == 2 || tag == 3 || tag == 6 || tag == 8 || tag == 9 {
            let (v, rest) = get_integer(wire, buf)?;
            if tag == 1 {
                self.call_id = to_low32(v);
            } else if tag == 2 {
                self.status = to_signed32(to_low32(v));
            } else if tag == 3 {
                self.server_ipc_version_num = Some(to_low32(v));
            } else if tag == 6 {
                self.error_detail = Some(to_signed32(to_low32(v)));
            } else if tag == 8 {
                self.retry_count = Some(from_zigzag(to_low32(v)));
            } else {
                self.state_id = Some(to_signed64(v));
            }
            Ok(rest)
        } else if tag == 4 || tag == 5 {
            let (v, rest) = get_string(wire, buf)?;
            if tag == 4 {
                self.exception_class_name = Some(v);
            } else {
                self.error_msg = Some(v);
            }
            Ok(rest)
        } else if tag == 7 || tag == 10 {
            let (v, rest) = get_bytes(wire, buf)?;
            let v = vstd::slice::slice_to_vec(v);
            if tag == 7 {
                self.client_id = Some(v);
            } else {
                self.router_federated_state = Some(v);
            }
            Ok(rest)
        } else {
            pass_nested_field(1, tag, wire, buf)
        }
    }
}

/// The header after a field that is an integer.
pub open spec fn with_integer(m: RpcResponseHeaderView, tag: u32, v: u64) -> RpcResponseHeaderView {
    if tag == 1 {
        RpcResponseHeaderView { call_id: low32(v), ..m }
    } else if tag == 2 {
        RpcResponseHeaderView { status: signed32(low32(v)), ..m }
    } else if tag == 3 {
        RpcResponseHeaderView { server_ipc_version_num: Some(low32(v)), ..m }
    } else if tag == 6 {
        RpcResponseHeaderView { error_detail: Some(signed32(low32(v))), ..m }
    } else if tag == 8 {
        RpcResponseHeaderView { retry_count: Some(unzigzag(low32(v))), ..m }
    } else {
        RpcResponseHeaderView { state_id: Some(signed64(v)), ..m }
    }
}

// Laws

/// A string fits where its length can be written.
pub open spec fn fits(v: Option<Seq<char>>) -> bool {
    v matches Some(v) ==> encode_utf8(v).len() <= u64::MAX
}

/// What is sent of the users says who they are: the effective one in field 1, the real one in
/// field 2.
pub proof fn law_users_on_the_wire(m: UserInformationView)
    requires
        fits(m.effective_user),
        fits(m.real_user),
    ensures
        read_fields(m.encoded()) == Some(
            optional_field(1, text(m.effective_user)) + optional_field(2, text(m.real_user)),
        ),
{
    let none = Seq::<Field>::empty();
    let s2 = optional_string_field(2, m.real_user) + Seq::<u8>::empty();
    lemma_read_optional_string(2, m.real_user, Seq::empty(), none);
    lemma_read_optional_string(
        1,
        m.effective_user,
        s2,
        optional_field(2, text(m.real_user)) + none,
    );
    assert(m.encoded() =~= optional_string_field(1, m.effective_user) + s2);
    assert(optional_field(2, text(m.real_user)) + none =~= optional_field(2, text(m.real_user)));
}

/// What is sent of a connection says what it is for: the users in field 2, the protocol in
/// field 3.
pub proof fn law_connection_context_on_the_wire(m: IpcConnectionContextView)
    requires
        fits(m.protocol),
        m.user_info matches Some(users) ==> users.encoded().len() <= u64::MAX,
    ensures
        read_fields(m.encoded()) == Some(
            optional_field(
                2,
                match m.user_info {
                    Some(users) => Some(FieldValue::Raw(users.encoded())),
                    None => None,
                },
            ) + optional_field(3, text(m.protocol)),
        ),
{
    let none = Seq::<Field>::empty();
    let s3 = optional_string_field(3, m.protocol) + Seq::<u8>::empty();
    let users: Option<Seq<u8>> = match m.user_info {
        Some(users) => Some(users.encoded()),
        None => None,
    };
    lemma_read_optional_string(3, m.protocol, Seq::empty(), none);
    lemma_read_optional_bytes(2, users, s3, optional_field(3, text(m.protocol)) + none);
    assert(m.encoded() =~= optional_bytes_field(2, users) + s3);
    assert(optional_field(3, text(m.protocol)) + none =~= optional_field(3, text(m.protocol)));
}

/// What is sent of a call says which method it is for: the method in field 1, its protocol in
/// field 2, the version of that in field 3.
pub proof fn law_method_on_the_wire(m: RequestHeaderView)
    requires
        encode_utf8(m.method_name).len() <= u64::MAX,
        encode_utf8(m.declaring_class_protocol_name).len() <= u64::MAX,
    ensures
        read_fields(m.encoded()) == Some(
            seq![
                (1u32, FieldValue::Raw(encode_utf8(m.method_name))),
                (2u32, FieldValue::Raw(encode_utf8(m.declaring_class_protocol_name))),
                (3u32, FieldValue::Integer(m.client_protocol_version)),
            ],
        ),
{
    let none = Seq::<Field>::empty();
    let f3 = seq![(3u32, FieldValue::Integer(m.client_protocol_version))];
    let f2 = seq![(2u32, FieldValue::Raw(encode_utf8(m.declaring_class_protocol_name)))];
    let f1 = seq![(1u32, FieldValue::Raw(encode_utf8(m.method_name)))];
    let s3 = integer_field(3, m.client_protocol_version) + Seq::<u8>::empty();
    let s2 = string_field(2, m.declaring_class_protocol_name) + s3;
    lemma_read_integer_field(3, m.client_protocol_version, Seq::empty(), none);
    lemma_read_bytes_field(2, encode_utf8(m.declaring_class_protocol_name), s3, f3 + none);
    lemma_read_bytes_field(1, encode_utf8(m.method_name), s2, f2 + (f3 + none));
    assert(m.encoded() =~= string_field(1, m.method_name) + s2);
    assert(f1 + (f2 + (f3 + none)) =~= seq![f1[0], f2[0], f3[0]]);
}

/// What is sent with every request says all of its header: the kind in field 1, the operation in
/// field 2, the call id in field 3, the client in field 4, the retry count in field 5, the state
/// id in field 8 and the states of the namespaces in field 9.
pub proof fn law_request_header_on_the_wire(m: RpcRequestHeaderView)
    requires
        m.client_id.len() <= u64::MAX,
        m.router_federated_state matches Some(b) ==> b.len() <= u64::MAX,
    ensures
        read_fields(m.encoded()) == Some(
            optional_field(1, signed(widened(m.rpc_kind))) + (optional_field(
                2,
                signed(widened(m.rpc_op)),
            ) + (seq![(3u32, FieldValue::Integer(zigzag(m.call_id) as u64))] + (seq![
                (4u32, FieldValue::Raw(m.client_id)),
            ] + (optional_field(
                5,
                match m.retry_count {
                    Some(v) => Some(FieldValue::Integer(zigzag(v) as u64)),
                    None => None,
                },
            ) + (optional_field(8, signed(m.state_id)) + optional_field(
                9,
                raw(m.router_federated_state),
            )))))),
        ),
{
    let none = Seq::<Field>::empty();
    let b9 = optional_bytes_field(9, m.router_federated_state);
    let b8 = optional_integer_field(8, integer64(m.state_id));
    let b5 = optional_integer_field(5, zigzag_integer(m.retry_count));
    let b4 = bytes_field(4, m.client_id);
    let b3 = integer_field(3, zigzag(m.call_id) as u64);
    let b2 = optional_integer_field(2, integer32(m.rpc_op));
    let b1 = optional_integer_field(1, integer32(m.rpc_kind));
    lemma_nested(b1, b2, b3, b4, b5, b8, b9);
    let l9 = optional_field(9, raw(m.router_federated_state));
    let l8 = optional_field(8, integer(integer64(m.state_id))) + l9;
    let l5 = optional_field(5, integer(zigzag_integer(m.retry_count))) + l8;
    let l4 = seq![(4u32, FieldValue::Raw(m.client_id))] + l5;
    let l3 = seq![(3u32, FieldValue::Integer(zigzag(m.call_id) as u64))] + l4;
    let l2 = optional_field(2, integer(integer32(m.rpc_op))) + l3;
    let s8 = b8 + b9;
    let s5 = b5 + s8;
    let s4 = b4 + s5;
    let s3 = b3 + s4;
    let s2 = b2 + s3;
    assert(read_fields(b9) == Some(l9)) by {
        lemma_read_optional_bytes(9, m.router_federated_state, Seq::empty(), none);
        assert(b9 + Seq::<u8>::empty() =~= b9);
        assert(l9 + none =~= l9);
    }
    lemma_read_optional_integer(8, integer64(m.state_id), b9, l9);
    lemma_read_optional_integer(5, zigzag_integer(m.retry_count), s8, l8);
    lemma_read_bytes_field(4, m.client_id, s5, l5);
    lemma_read_integer_field(3, zigzag(m.call_id) as u64, s4, l4);
    lemma_read_optional_integer(2, integer32(m.rpc_op), s3, l3);
    lemma_read_optional_integer(1, integer32(m.rpc_kind), s2, l2);
}

/// Seven sequences, joined from either end.
proof fn lemma_nested(
    a: Seq<u8>,
    b: Seq<u8>,
    c: Seq<u8>,
    d: Seq<u8>,
    e: Seq<u8>,
    f: Seq<u8>,
    g: Seq<u8>,
)
    ensures
        a + b + c + d + e + f + g == a + (b + (c + (d + (e + (f + g))))),
{
    assert(a + b + c + d + e + f + g =~= a + (b + (c + (d + (e + (f + g))))));
}

/// The one field with its number is found between others.
proof fn lemma_only_field(front: Seq<Field>, x: Field, back: Seq<Field>, fields: Seq<Field>)
    requires
        fields == front + (seq![x] + back),
        forall|i: int| 0 <= i < front.len() ==> #[trigger] front[i].0 != x.0,
        forall|i: int| 0 <= i < back.len() ==> #[trigger] back[i].0 != x.0,
    ensures
        exists|i: int| 0 <= i < fields.len() && #[trigger] fields[i].0 == x.0,
        forall|i: int| 0 <= i < fields.len() && #[trigger] fields[i].0 == x.0 ==> fields[i] == x,
{
    assert(fields[front.len() as int] == x);
    assert forall|i: int| 0 <= i < fields.len() && #[trigger] fields[i].0 == x.0 implies fields[i]
        == x by {
        if i < front.len() {
            assert(fields[i] == front[i]);
        } else if i > front.len() {
            assert(fields[i] == back[i - front.len() - 1]);
        }
    }
}

/// The call id is the only field of the header of a request with the number 3.
proof fn lemma_call_id_field(m: RpcRequestHeaderView)
    requires
        m.client_id.len() <= u64::MAX,
        m.router_federated_state matches Some(b) ==> b.len() <= u64::MAX,
    ensures
        read_fields(m.encoded()) matches Some(fields) && {
            &&& exists|i: int| 0 <= i < fields.len() && #[trigger] fields[i].0 == 3
            &&& forall|i: int|
                0 <= i < fields.len() && #[trigger] fields[i].0 == 3 ==> fields[i].1
                    == FieldValue::Integer(zigzag(m.call_id) as u64)
        },
{
    law_request_header_on_the_wire(m);
    let fields = read_fields(m.encoded()).unwrap();
    let f1 = optional_field(1, signed(widened(m.rpc_kind)));
    let f2 = optional_field(2, signed(widened(m.rpc_op)));
    let x = (3u32, FieldValue::Integer(zigzag(m.call_id) as u64));
    let f4 = seq![(4u32, FieldValue::Raw(m.client_id))];
    let f5 = optional_field(
        5,
        match m.retry_count {
            Some(v) => Some(FieldValue::Integer(zigzag(v) as u64)),
            None => None,
        },
    );
    let f8 = optional_field(8, signed(m.state_id));
    let f9 = optional_field(9, raw(m.router_federated_state));
    let back = f4 + (f5 + (f8 + f9));
    assert(f1 + (f2 + (seq![x] + back)) =~= (f1 + f2) + (seq![x] + back));
    lemma_only_field(f1 + f2, x, back, fields);
}

/// The call id of a request can be read from its bytes: it is in the only field with the number
/// 3. So requests with different call ids have different bytes.
pub proof fn law_call_id_on_the_wire(m: RpcRequestHeaderView, other: RpcRequestHeaderView)
    requires
        m.client_id.len() <= u64::MAX,
        m.router_federated_state matches Some(b) ==> b.len() <= u64::MAX,
        other.client_id.len() <= u64::MAX,
        other.router_federated_state matches Some(b) ==> b.len() <= u64::MAX,
    ensures
        read_fields(m.encoded()) matches Some(fields) && {
            &&& exists|i: int| 0 <= i < fields.len() && #[trigger] fields[i].0 == 3
            &&& forall|i: int|
                0 <= i < fields.len() && #[trigger] fields[i].0 == 3 ==> {
                    &&& fields[i].1 matches FieldValue::Integer(v)
                    &&& v <= u32::MAX
                    &&& unzigzag(v as u32) == m.call_id
                }
        },
        m.encoded() == other.encoded() ==> m.call_id == other.call_id,
{
    lemma_call_id_field(m);
    lemma_call_id_field(other);
    assert(unzigzag(zigzag(m.call_id)) == m.call_id);
    assert(unzigzag(zigzag(other.call_id)) == other.call_id);
}

/// Each field of the header of a response sets what it stands for, whatever was read before, and
/// nothing else.
pub proof fn law_response_header_fields(
    m: RpcResponseHeaderView,
    v: u64,
    t: Seq<char>,
    b: Seq<u8>,
    rest: Seq<u8>,
)
    requires
        encode_utf8(t).len() <= u64::MAX,
        b.len() <= u64::MAX,
    ensures
        with_fields::<RpcResponseHeader>(m, integer_field(1, v) + rest) == with_fields::<
            RpcResponseHeader,
        >(RpcResponseHeaderView { call_id: low32(v), ..m }, rest),
        with_fields::<RpcResponseHeader>(m, integer_field(2, v) + rest) == with_fields::<
            RpcResponseHeader,
        >(RpcResponseHeaderView { status: signed32(low32(v)), ..m }, rest),
        with_fields::<RpcResponseHeader>(m, integer_field(3, v) + rest) == with_fields::<
            RpcResponseHeader,
        >(RpcResponseHeaderView { server_ipc_version_num: Some(low32(v)), ..m }, rest),
        with_fields::<RpcResponseHeader>(m, string_field(4, t) + rest) == with_fields::<
            RpcResponseHeader,
        >(RpcResponseHeaderView { exception_class_name: Some(t), ..m }, rest),
        with_fields::<RpcResponseHeader>(m, string_field(5, t) + rest) == with_fields::<
            RpcResponseHeader,
        >(RpcResponseHeaderView { error_msg: Some(t), ..m }, rest),
        with_fields::<RpcResponseHeader>(m, integer_field(6, v) + rest) == with_fields::<
            RpcResponseHeader,
        >(RpcResponseHeaderView { error_detail: Some(signed32(low32(v))), ..m }, rest),
        with_fields::<RpcResponseHeader>(m, bytes_field(7, b) + rest) == with_fields::<
            RpcResponseHeader,
        >(RpcResponseHeaderView { client_id: Some(b), ..m }, rest),
        with_fields::<RpcResponseHeader>(m, integer_field(8, v) + rest) == with_fields::<
            RpcResponseHeader,
        >(RpcResponseHeaderView { retry_count: Some(unzigzag(low32(v))), ..m }, rest),
        with_fields::<RpcResponseHeader>(m, integer_field(9, v) + rest) == with_fields::<
            RpcResponseHeader,
        >(RpcResponseHeaderView { state_id: Some(signed64(v)), ..m }, rest),
        with_fields::<RpcResponseHeader>(m, bytes_field(10, b) + rest) == with_fields::<
            RpcResponseHeader,
        >(RpcResponseHeaderView { router_federated_state: Some(b), ..m }, rest),
{
    lemma_integer_first::<RpcResponseHeader>(m, 1, v, rest);
    lemma_integer_first::<RpcResponseHeader>(m, 2, v, rest);
    lemma_integer_first::<RpcResponseHeader>(m, 3, v, rest);
    lemma_string_first::<RpcResponseHeader>(m, 4, t, rest);
    lemma_string_first::<RpcResponseHeader>(m, 5, t, rest);
    lemma_integer_first::<RpcResponseHeader>(m, 6, v, rest);
    lemma_bytes_first::<RpcResponseHeader>(m, 7, b, rest);
    lemma_integer_first::<RpcResponseHeader>(m, 8, v, rest);
    lemma_integer_first::<RpcResponseHeader>(m, 9, v, rest);
    lemma_bytes_first::<RpcResponseHeader>(m, 10, b, rest);
}

/// A field that the header of a response does not have is passed over, and one of the wrong kind
/// is an error.
pub proof fn law_response_header_other_fields(
    m: RpcResponseHeaderView,
    tag: u32,
    v: u64,
    w: u32,
    b: Seq<u8>,
    rest: Seq<u8>,
)
    requires
        1 <= tag < 0x2000_0000,
        b.len() <= u64::MAX,
    ensures
        tag > 10 ==> passes_over::<RpcResponseHeader>(m, tag, v, w, b, rest),
        tag == 4 || tag == 5 || tag == 7 || tag == 10 ==> refuses_integer::<RpcResponseHeader>(
            m,
            tag,
            v,
            rest,
        ),
        tag == 1 || tag == 2 || tag == 3 || tag == 6 || tag == 8 || tag == 9 ==> refuses_bytes::<
            RpcResponseHeader,
        >(m, tag, b, rest),
{
    lemma_any_first::<RpcResponseHeader>(m, tag, v, w, b, rest);
}

/// The bytes of the header of a response, as a server writes it.
pub open spec fn response_bytes(m: RpcResponseHeaderView) -> Seq<u8> {
    integer_field(1, m.call_id as u64) + (integer_field(2, unsigned64(m.status as i64)) + (
    optional_integer_field(
        3,
        match m.server_ipc_version_num {
            Some(v) => Some(v as u64),
            None => None,
        },
    ) + (optional_string_field(4, m.exception_class_name) + (optional_string_field(5, m.error_msg)
        + (optional_integer_field(
        6,
        match m.error_detail {
            Some(v) => Some(unsigned64(v as i64)),
            None => None,
        },
    ) + (optional_bytes_field(7, m.client_id) + (optional_integer_field(
        8,
        match m.retry_count {
            Some(v) => Some(zigzag(v) as u64),
            None => None,
        },
    ) + (optional_integer_field(
        9,
        match m.state_id {
            Some(v) => Some(unsigned64(v)),
            None => None,
        },
    ) + optional_bytes_field(10, m.router_federated_state)))))))))
}

/// The header of a response after the fields that are all of `s`.
#[verifier::opaque]
spec fn read_on(m: RpcResponseHeaderView, s: Seq<u8>) -> Option<RpcResponseHeaderView> {
    with_fields::<RpcResponseHeader>(m, s)
}

proof fn lemma_read_on(m: RpcResponseHeaderView, s: Seq<u8>)
    ensures
        s.len() == 0 ==> read_on(m, s) == Some(m),
        m == RpcResponseHeader::blank() ==> read_on(m, s) == decoded::<RpcResponseHeader>(s),
{
    reveal(read_on);
}

proof fn lemma_number_is_next(m: RpcResponseHeaderView, tag: u32, v: u64, rest: Seq<u8>)
    requires
        tag == 1 || tag == 2,
    ensures
        read_on(m, integer_field(tag, v) + rest) == read_on(with_integer(m, tag, v), rest),
{
    reveal(read_on);
    lemma_integer_first::<RpcResponseHeader>(m, tag, v, rest);
}

proof fn lemma_number_first(m: RpcResponseHeaderView, tag: u32, v: Option<u64>, rest: Seq<u8>)
    requires
        tag == 3 || tag == 6 || tag == 8 || tag == 9,
    ensures
        read_on(m, optional_integer_field(tag, v) + rest) == read_on(
            match v {
                Some(v) => with_integer(m, tag, v),
                None => m,
            },
            rest,
        ),
{
    reveal(read_on);
    match v {
        Some(v) => lemma_integer_first::<RpcResponseHeader>(m, tag, v, rest),
        None => assert(Seq::<u8>::empty() + rest =~= rest),
    }
}

proof fn lemma_text_first(m: RpcResponseHeaderView, tag: u32, t: Option<Seq<char>>, rest: Seq<u8>)
    requires
        tag == 4 || tag == 5,
        fits(t),
    ensures
        read_on(m, optional_string_field(tag, t) + rest) == read_on(
            match t {
                Some(t) => if tag == 4 {
                    RpcResponseHeaderView { exception_class_name: Some(t), ..m }
                } else {
                    RpcResponseHeaderView { error_msg: Some(t), ..m }
                },
                None => m,
            },
            rest,
        ),
{
    reveal(read_on);
    match t {
        Some(t) => lemma_string_first::<RpcResponseHeader>(m, tag, t, rest),
        None => assert(Seq::<u8>::empty() + rest =~= rest),
    }
}

proof fn lemma_raw_first(m: RpcResponseHeaderView, tag: u32, b: Option<Seq<u8>>, rest: Seq<u8>)
    requires
        tag == 7 || tag == 10,
        b matches Some(b) ==> b.len() <= u64::MAX,
    ensures
        read_on(m, optional_bytes_field(tag, b) + rest) == read_on(
            match b {
                Some(b) => if tag == 7 {
                    RpcResponseHeaderView { client_id: Some(b), ..m }
                } else {
                    RpcResponseHeaderView { router_federated_state: Some(b), ..m }
                },
                None => m,
            },
            rest,
        ),
{
    reveal(read_on);
    match b {
        Some(b) => lemma_bytes_first::<RpcResponseHeader>(m, tag, b, rest),
        None => assert(Seq::<u8>::empty() + rest =~= rest),
    }
}

/// The header of a response is read as the server wrote it: the call id, the status and every
/// other field.
pub proof fn law_response_header_is_read_back(m: RpcResponseHeaderView)
    requires
        fits(m.exception_class_name),
        fits(m.error_msg),
        m.client_id matches Some(b) ==> b.len() <= u64::MAX,
        m.router_federated_state matches Some(b) ==> b.len() <= u64::MAX,
    ensures
        decoded::<RpcResponseHeader>(response_bytes(m)) == Some(m),
{
    lemma_response_read_back(m);
    lemma_read_on(RpcResponseHeader::blank(), response_bytes(m));
}

proof fn lemma_response_read_back(m: RpcResponseHeaderView)
    requires
        fits(m.exception_class_name),
        fits(m.error_msg),
        m.client_id matches Some(b) ==> b.len() <= u64::MAX,
        m.router_federated_state matches Some(b) ==> b.len() <= u64::MAX,
    ensures
        read_on(RpcResponseHeader::blank(), response_bytes(m)) == Some(m),
{
    lemma_front_read_back(m, response_tail(m));
    lemma_tail_read_back(m);
}

/// The last five fields of the header of a response.
spec fn response_tail(m: RpcResponseHeaderView) -> Seq<u8> {
    optional_integer_field(
        6,
        match m.error_detail {
            Some(v) => Some(unsigned64(v as i64)),
            None => None,
        },
    ) + (optional_bytes_field(7, m.client_id) + (optional_integer_field(
        8,
        match m.retry_count {
            Some(v) => Some(zigzag(v) as u64),
            None => None,
        },
    ) + (optional_integer_field(
        9,
        match m.state_id {
            Some(v) => Some(unsigned64(v)),
            None => None,
        },
    ) + optional_bytes_field(10, m.router_federated_state))))
}

/// The header after its first five fields.
spec fn response_front(m: RpcResponseHeaderView) -> RpcResponseHeaderView {
    RpcResponseHeaderView {
        error_detail: None,
        client_id: None,
        retry_count: None,
        state_id: None,
        router_federated_state: None,
        ..m
    }
}

proof fn lemma_front_read_back(m: RpcResponseHeaderView, rest: Seq<u8>)
    requires
        fits(m.exception_class_name),
        fits(m.error_msg),
    ensures
        read_on(
            RpcResponseHeader::blank(),
            integer_field(1, m.call_id as u64) + (integer_field(2, unsigned64(m.status as i64)) + (
            optional_integer_field(
                3,
                match m.server_ipc_version_num {
                    Some(v) => Some(v as u64),
                    None => None,
                },
            ) + (optional_string_field(4, m.exception_class_name) + (optional_string_field(
                5,
                m.error_msg,
            ) + rest)))),
        ) == read_on(response_front(m), rest),
{
    let v1 = m.call_id as u64;
    let v2 = unsigned64(m.status as i64);
    let v3: Option<u64> = match m.server_ipc_version_num {
        Some(v) => Some(v as u64),
        None => None,
    };
    let s5 = optional_string_field(5, m.error_msg) + rest;
    let s4 = optional_string_field(4, m.exception_class_name) + s5;
    let s3 = optional_integer_field(3, v3) + s4;
    let s2 = integer_field(2, v2) + s3;
    let s1 = integer_field(1, v1) + s2;
    let m0 = RpcResponseHeader::blank();
    let m1 = RpcResponseHeaderView { call_id: m.call_id, ..m0 };
    let m2 = RpcResponseHeaderView { status: m.status, ..m1 };
    let m3 = RpcResponseHeaderView { server_ipc_version_num: m.server_ipc_version_num, ..m2 };
    let m4 = RpcResponseHeaderView { exception_class_name: m.exception_class_name, ..m3 };
    let m5 = response_front(m);
    assert(read_on(m0, s1) == read_on(m1, s2)) by {
        lemma_number_is_next(m0, 1, v1, s2);
    }
    assert(read_on(m1, s2) == read_on(m2, s3)) by {
        lemma_number_is_next(m1, 2, v2, s3);
    }
    assert(read_on(m2, s3) == read_on(m3, s4)) by {
        lemma_number_first(m2, 3, v3, s4);
    }
    assert(read_on(m3, s4) == read_on(m4, s5)) by {
        lemma_text_first(m3, 4, m.exception_class_name, s5);
    }
    assert(read_on(m4, s5) == read_on(m5, rest)) by {
        lemma_text_first(m4, 5, m.error_msg, rest);
    }
}

proof fn lemma_tail_read_back(m: RpcResponseHeaderView)
    requires
        m.client_id matches Some(b) ==> b.len() <= u64::MAX,
        m.router_federated_state matches Some(b) ==> b.len() <= u64::MAX,
    ensures
        read_on(response_front(m), response_tail(m)) == Some(m),
{
    let none = Seq::<u8>::empty();
    let v6: Option<u64> = match m.error_detail {
        Some(v) => Some(unsigned64(v as i64)),
        None => None,
    };
    let v8: Option<u64> = match m.retry_count {
        Some(v) => Some(zigzag(v) as u64),
        None => None,
    };
    let v9: Option<u64> = match m.state_id {
        Some(v) => Some(unsigned64(v)),
        None => None,
    };
    let s10 = optional_bytes_field(10, m.router_federated_state);
    let s9 = optional_integer_field(9, v9) + s10;
    let s8 = optional_integer_field(8, v8) + s9;
    let s7 = optional_bytes_field(7, m.client_id) + s8;
    let s6 = optional_integer_field(6, v6) + s7;
    let m5 = response_front(m);
    let m6 = RpcResponseHeaderView { error_detail: m.error_detail, ..m5 };
    let m7 = RpcResponseHeaderView { client_id: m.client_id, ..m6 };
    let m8 = RpcResponseHeaderView { retry_count: m.retry_count, ..m7 };
    let m9 = RpcResponseHeaderView { state_id: m.state_id, ..m8 };
    assert(read_on(m5, s6) == read_on(m6, s7)) by {
        lemma_number_first(m5, 6, v6, s7);
    }
    assert(read_on(m6, s7) == read_on(m7, s8)) by {
        lemma_raw_first(m6, 7, m.client_id, s8);
    }
    assert(read_on(m7, s8) == read_on(m8, s9)) by {
        lemma_number_first(m7, 8, v8, s9);
    }
    assert(read_on(m8, s9) == read_on(m9, s10)) by {
        lemma_number_first(m8, 9, v9, s10);
    }
    assert(read_on(m9, s10) == Some(m)) by {
        lemma_raw_first(m9, 10, m.router_federated_state, none);
        assert(s10 + none =~= s10);
        lemma_read_on(m, none);
    }
}

/// The three ways in which a call can end have the numbers 0, 1 and 2; every other number counts
/// as the first.
pub proof fn law_statuses(m: RpcResponseHeaderView)
    ensures
        m.status() == RpcStatus::Error <==> m.status == 1,
        m.status() == RpcStatus::Fatal <==> m.status == 2,
        m.status() == RpcStatus::Success <==> m.status != 1 && m.status != 2,
{
}

/// What a message that is sent says is what it holds.
pub proof fn law_sent_messages_say_what_they_hold(
    user: UserInformation,
    context: IpcConnectionContext,
    request: RequestHeader,
    header: RpcRequestHeader,
)
    ensures
        user@.effective_user == optional_string(user.effective_user),
        user@.real_user == optional_string(user.real_user),
        context.user_info matches Some(user_info) ==> context@.user_info == Some(user_info@),
        context.user_info is None ==> context@.user_info is None,
        context@.protocol == optional_string(context.protocol),
        request@.method_name == request.method_name@,
        request@.declaring_class_protocol_name == request.declaring_class_protocol_name@,
        request@.client_protocol_version == request.client_protocol_version,
        header@.rpc_kind == header.rpc_kind,
        header@.rpc_op == header.rpc_op,
        header@.call_id == header.call_id,
        header@.client_id == header.client_id@,
        header@.retry_count == header.retry_count,
        header@.state_id == header.state_id,
        header@.router_federated_state == optional_bytes(header.router_federated_state),
{
}

/// What the header of a response says is what it holds.
pub proof fn law_response_header_says_what_it_holds(header: RpcResponseHeader)
    ensures
        header@.call_id == header.call_id,
        header@.status == header.status,
        header@.server_ipc_version_num == header.server_ipc_version_num,
        header@.exception_class_name == optional_string(header.exception_class_name),
        header@.error_msg == optional_string(header.error_msg),
        header@.error_detail == header.error_detail,
        header@.client_id == optional_bytes(header.client_id),
        header@.retry_count == header.retry_count,
        header@.state_id == header.state_id,
        header@.router_federated_state == optional_bytes(header.router_federated_state),
{
}

} // verus!
