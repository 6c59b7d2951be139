//! Connections to a data node.

use vstd::prelude::*;
use crate::datanode_messages::{BlockOpResponse, PipelineAck};
use crate::error::HdfsError;
use crate::fields::{lemma_read_integer_field, read_fields, FieldValue};
use crate::integers::{be_bytes, be_value, lemma_be_round_trip, pow256, put_be16};
use crate::message::{decode, decoded, delimit};
use crate::text::{
    decimal, decimal_string, law_decimal_digits_spell_the_number, lemma_decimal_digits,
    lemma_decimal_injective, spelled,
};
use crate::wire::{
    delimited, integer_field, lemma_delimited_round_trip, lemma_integer_field_round_trip,
    put_delimited, put_integer_field, read_delimited, varint,
};

verus! {

/// The version of the protocol that data nodes speak.
pub const DATA_TRANSFER_VERSION: u16 = 28;

/// The status that tells a data node that all checksums matched.
pub const CHECKSUM_OK: u64 = 6;

/// An operation on a block.
#[derive(Clone, Copy, Debug, PartialEq, Eq, Structural)]
pub enum Op {
    WriteBlock,
    ReadBlock,
}

impl Op {
    /// The number of the operation.
    pub open spec fn number(self) -> u8 {
        match self {
            Op::WriteBlock => 80,
            Op::ReadBlock => 81,
        }
    }

    /// The number of the operation.
    pub fn value(&self) -> (r: u8)
        ensures
            r == self.number(),
    {
        match self {
            Op::WriteBlock => 80,
            Op::ReadBlock => 81,
        }
    }
}

/// Where a data node is: its address, and the port for the data of blocks.
pub struct DatanodeId {
    pub ip_addr: String,
    pub xfer_port: u32,
}

/// The address and the port of a data node, with a colon between them.
pub open spec fn url_of(ip_addr: Seq<char>, xfer_port: u32) -> Seq<char> {
    ip_addr + ":"@ + decimal(xfer_port as nat)
}

/// The address and the port of a data node, with a colon between them.
pub fn datanode_url(datanode_id: &DatanodeId) -> (r: String)
    ensures
        r@ == url_of(datanode_id.ip_addr@, datanode_id.xfer_port),
{
    let port = decimal_string(datanode_id.xfer_port);
    datanode_id.ip_addr.clone().concat(":").concat(port.as_str())
}

/// A block of a file.
pub struct ExtendedBlock {
    pub pool_id: String,
    pub block_id: u64,
    pub generation_stamp: u64,
    pub num_bytes: Option<u64>,
}

/// What an `ExtendedBlock` says.
pub struct ExtendedBlockView {
    pub pool_id: Seq<char>,
    pub block_id: u64,
    pub generation_stamp: u64,
    pub num_bytes: Option<u64>,
}

impl View for ExtendedBlock {
    type V = ExtendedBlockView;

    open spec fn view(&self) -> ExtendedBlockView {
        ExtendedBlockView {
            pool_id: self.pool_id@,
            block_id: self.block_id,
            generation_stamp: self.generation_stamp,
            num_bytes: self.num_bytes,
        }
    }
}

impl Clone for ExtendedBlock {
    fn clone(&self) -> (r: ExtendedBlock)
        ensures
            r@ == self@,
            r.pool_id@ == self.pool_id@,
            r.block_id == self.block_id,
            r.generation_stamp == self.generation_stamp,
            r.num_bytes == self.num_bytes,
    {
        ExtendedBlock {
            pool_id: self.pool_id.clone(),
            block_id: self.block_id,
            generation_stamp: self.generation_stamp,
            num_bytes: self.num_bytes,
        }
    }
}

/// The permission to work on a block.
pub struct Token {
    pub identifier: Vec<u8>,
    pub password: Vec<u8>,
    pub kind: String,
    pub service: String,
}

/// What the header of an operation says of the block. It carries no trace.
pub struct BaseHeader {
    pub block: ExtendedBlock,
    pub token: Option<Token>,
}

/// The header of an operation.
pub struct ClientOperationHeader {
    pub base_header: BaseHeader,
    pub client_name: String,
}

/// A UUID in letters: groups of 8, 4, 4, 4 and 12 hexadecimal digits in lower case, with hyphens
/// between them, of the fourth version and the variant that goes with it.
pub open spec fn is_client_name(name: Seq<char>) -> bool {
    &&& name.len() == 36
    &&& forall|i: int|
        0 <= i < 36 ==> if i == 8 || i == 13 || i == 18 || i == 23 {
            #[trigger] name[i] == '-'
        } else {
            '0' <= name[i] <= '9' || 'a' <= name[i] <= 'f'
        }
    &&& name[14] == '4'
    &&& name[19] == '8' || name[19] == '9' || name[19] == 'a' || name[19] == 'b'
}

/// Calls `Uuid::new_v4` and `Uuid::to_string`. The digits are random, but for the version and
/// the variant.
#[verifier::external_body]
fn random_client_name() -> (name: String)
    ensures
        is_client_name(name@),
{
    uuid::Uuid::new_v4().to_string()
}

/// A connection to a data node, over a stream whose halves are `reader` and `writer`.
pub struct DatanodeConnection<R, W> {
    pub client_name: String,
    pub reader: R,
    pub writer: W,
    pub url: String,
}

/// The half of a connection to a data node that reads the acknowledgements of what is written.
pub struct DatanodeReader<R> {
    pub reader: R,
}

/// The half of a connection to a data node that writes packets.
pub struct DatanodeWriter<W> {
    pub writer: W,
}

/// What the client sends to start an operation: the version of the protocol, the number of the
/// operation, and its message after its length.
pub open spec fn operation_bytes(op: Op, message: Seq<u8>) -> Seq<u8> {
    be_bytes(DATA_TRANSFER_VERSION as nat, 2) + seq![op.number()] + delimited(message)
}

/// What the client sends to start an operation with the given message.
pub fn send_request(op: Op, message: &[u8]) -> (r: Vec<u8>)
    ensures
        r@ == operation_bytes(op, message@),
{
    let mut r: Vec<u8> = Vec::new();
    put_be16(&mut r, DATA_TRANSFER_VERSION);
    r.push(op.value());
    put_delimited(&mut r, message);
    assert(r@ =~= operation_bytes(op, message@));
    r
}

/// What the data node answers to an operation, read from the message that it sends.
pub fn send_response(message: &[u8]) -> (r: Result<BlockOpResponse, HdfsError>)
    ensures
        match decoded::<BlockOpResponse>(message@) {
            Some(response) => r matches Ok(x) && x@ == response,
            None => r matches Err(HdfsError::InvalidRPCResponse),
        },
{
    decode::<BlockOpResponse>(message)
}

/// The acknowledgement of a packet, read from the message that the data node sends.
pub fn read_ack(message: &[u8]) -> (r: Result<PipelineAck, HdfsError>)
    ensures
        match decoded::<PipelineAck>(message@) {
            Some(ack) => r matches Ok(x) && x@ == ack,
            None => r matches Err(HdfsError::InvalidRPCResponse),
        },
{
    decode::<PipelineAck>(message)
}

/// What the client sends once it has read a block and all checksums matched.
pub fn send_read_success() -> (r: Vec<u8>)
    ensures
        r@ == delimited(integer_field(1, CHECKSUM_OK)),
{
    let mut status: Vec<u8> = Vec::new();
    put_integer_field(&mut status, 1, CHECKSUM_OK);
    assert(status@ =~= integer_field(1, CHECKSUM_OK));
    delimit(status.as_slice())
}

impl<R, W> DatanodeConnection<R, W> {
    /// A connection to the given data node, with a random client name.
    pub fn connect(datanode_id: &DatanodeId, reader: R, writer: W) -> (r: DatanodeConnection<R, W>)
        ensures
            is_client_name(r.client_name@),
            r.reader == reader,
            r.writer == writer,
            r.url@ == url_of(datanode_id.ip_addr@, datanode_id.xfer_port),
    {
        DatanodeConnection::with_client_name(random_client_name(), datanode_id, reader, writer)
    }

    /// A connection to the given data node, with the given client name.
    pub fn with_client_name(
        client_name: String,
        datanode_id: &DatanodeId,
        reader: R,
        writer: W,
    ) -> (r: DatanodeConnection<R, W>)
        ensures
            r.client_name == client_name,
            r.reader == reader,
            r.writer == writer,
            r.url@ == url_of(datanode_id.ip_addr@, datanode_id.xfer_port),
    {
        DatanodeConnection { client_name, reader, writer, url: datanode_url(datanode_id) }
    }

    /// The header of an operation on a block.
    pub fn build_header(&self, block: &ExtendedBlock, token: Option<Token>) -> (r:
        ClientOperationHeader)
        ensures
            r.base_header.block@ == block@,
            r.base_header.block.pool_id@ == block.pool_id@,
            r.base_header.block.block_id == block.block_id,
            r.base_header.block.generation_stamp == block.generation_stamp,
            r.base_header.block.num_bytes == block.num_bytes,
            r.base_header.token == token,
            r.client_name@ == self.client_name@,
    {
        let base_header = BaseHeader { block: block.clone(), token };
        ClientOperationHeader { base_header, client_name: self.client_name.clone() }
    }

    /// The two halves of the connection.
    pub fn split(self) -> (r: (DatanodeReader<R>, DatanodeWriter<W>))
        ensures
            r.0.reader == self.reader,
            r.1.writer == self.writer,
    {
        (DatanodeReader { reader: self.reader }, DatanodeWriter { writer: self.writer })
    }
}

// Laws

/// No two data nodes have the same address with port.
pub proof fn law_url_tells_datanodes_apart(a: Seq<char>, p: u32, b: Seq<char>, q: u32)
    requires
        url_of(a, p) == url_of(b, q),
    ensures
        a == b,
        p == q,
{
    reveal_strlit(":");
    let s = url_of(a, p);
    let t = url_of(b, q);
    let m = decimal(p as nat).len() as int;
    let n = decimal(q as nat).len() as int;
    lemma_decimal_digits(p as nat);
    lemma_decimal_digits(q as nat);
    assert(s[s.len() - m - 1] == ':');
    assert(t[t.len() - n - 1] == ':');
    if m < n {
        assert(t[t.len() - m - 1] == decimal(q as nat)[n - m - 1]);
    } else if n < m {
        assert(s[s.len() - n - 1] == decimal(p as nat)[m - n - 1]);
    }
    assert(m == n);
    assert(s.skip(s.len() - m) =~= decimal(p as nat));
    assert(t.skip(t.len() - n) =~= decimal(q as nat));
    lemma_decimal_injective(p as nat, q as nat);
    assert(s.take(s.len() - m - 1) =~= a);
    assert(t.take(t.len() - n - 1) =~= b);
}

/// What starts an operation can be told apart again: the version 28 in two bytes, the number of
/// the operation, and the message after its length, of any length, with nothing behind it.
pub proof fn law_operation_on_the_wire(op: Op, message: Seq<u8>)
    requires
        message.len() <= u64::MAX,
    ensures
        ({
            let sent = operation_bytes(op, message);
            &&& be_value(sent.take(2)) == 28
            &&& sent[2] == if op == Op::WriteBlock {
                80u8
            } else {
                81u8
            }
            &&& read_delimited(sent.skip(3)) == Some((message, Seq::<u8>::empty()))
        }),
{
    let sent = operation_bytes(op, message);
    let none = Seq::<u8>::empty();
    reveal_with_fuel(pow256, 3);
    lemma_be_round_trip(28, 2);
    assert(sent.take(2) =~= be_bytes(28, 2));
    assert(sent.skip(3) =~= delimited(message) + none);
    lemma_delimited_round_trip(message, none);
}

/// What ends a read can be told apart again: a message after its length, whose field 1 is the
/// status 6.
pub proof fn law_read_success_on_the_wire()
    ensures
        read_delimited(delimited(integer_field(1, CHECKSUM_OK))) matches Some((message, rest))
            && read_fields(message) == Some(seq![(1u32, FieldValue::Integer(6))]) && rest.len()
            == 0,
{
    let none = Seq::<u8>::empty();
    let message = integer_field(1, CHECKSUM_OK);
    lemma_integer_field_round_trip(1, CHECKSUM_OK, none);
    lemma_read_integer_field(1, CHECKSUM_OK, none, Seq::empty());
    assert(message + none =~= message);
    assert(seq![(1u32, FieldValue::Integer(6))] + Seq::empty() =~= seq![
        (1u32, FieldValue::Integer(6)),
    ]);
    reveal_with_fuel(varint, 2);
    lemma_delimited_round_trip(message, none);
    assert(delimited(message) + none =~= delimited(message));
}

/// The address of a data node ends with the digits of its port, after a colon.
pub proof fn law_url_holds_the_port(ip_addr: Seq<char>, xfer_port: u32)
    ensures
        ({
            let url = url_of(ip_addr, xfer_port);
            let n = ip_addr.len() as int;
            &&& url.len() > n + 1
            &&& url.take(n) == ip_addr
            &&& url[n] == ':'
            &&& spelled(url.skip(n + 1)) == xfer_port
        }),
{
    reveal_strlit(":");
    law_decimal_digits_spell_the_number(xfer_port as nat);
    let url = url_of(ip_addr, xfer_port);
    let n = ip_addr.len() as int;
    assert(url.take(n) =~= ip_addr);
    assert(url.skip(n + 1) =~= decimal(xfer_port as nat));
}

} // verus!
