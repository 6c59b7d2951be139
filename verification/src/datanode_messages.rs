//! The messages that data nodes send.

use vstd::prelude::*;
use vstd::utf8::encode_utf8;
use crate::checksum::ChecksumAlgorithm;
use crate::error::HdfsError;
use crate::fields::{law_integers_are_read_back, packed};
use crate::integers::{from_zigzag64, low32, signed32, to_low32, to_signed32, unzigzag64};
use crate::message::{
    decoded, lemma_any_first, lemma_bytes_first, lemma_integer_first, lemma_string_first,
    merge_nested, pass_nested_field, passes_over, refuses_bytes, refuses_integer, skip_nested_field,
    with_fields, with_nested, Message,
};
use crate::wire::{
    bytes_field, get_bytes, get_integer, get_integers, get_string, integer_field,
    lemma_read_varint_shrinks, optional_string, pass_field, read_bytes, read_integer, read_integers,
    read_string, skip_field, string_field,
};

verus! {

/// How the data of a block is checked: the number of the algorithm, and the size of a chunk.
#[derive(Clone, Copy, Debug, PartialEq, Eq, Structural)]
pub struct Checksum {
    pub checksum_type: i32,
    pub bytes_per_checksum: u32,
}

impl Checksum {
    /// The algorithm with the number `checksum_type`. The number 0 stands for none, and so does a
    /// number that stands for nothing.
    pub open spec fn algorithm_of(self) -> Option<ChecksumAlgorithm> {
        if self.checksum_type == 1 {
            Some(ChecksumAlgorithm::Crc32)
        } else if self.checksum_type == 2 {
            Some(ChecksumAlgorithm::Crc32c)
        } else {
            None
        }
    }

    /// The algorithm, if any.
    pub fn algorithm(&self) -> (r: Option<ChecksumAlgorithm>)
        ensures
            r == self.algorithm_of(),
    {
        if self.checksum_type == 1 {
            Some(ChecksumAlgorithm::Crc32)
        } else if self.checksum_type == 2 {
            Some(ChecksumAlgorithm::Crc32c)
        } else {
            None
        }
    }
}

impl View for Checksum {
    type V = Checksum;

    open spec fn view(&self) -> Checksum {
        *self
    }
}

impl Message for Checksum {
    open spec fn blank() -> Checksum {
        Checksum { checksum_type: 0, bytes_per_checksum: 0 }
    }

    open spec fn with_field(m: Checksum, tag: u32, wire: u8, s: Seq<u8>) -> Option<
        (Checksum, Seq<u8>),
    > {
        if tag == 1 || tag == 2 {
            match read_integer(wire, s) {
                Some((v, rest)) => if tag == 1 {
                    Some((Checksum { checksum_type: signed32(low32(v)), ..m }, rest))
                } else {
                    Some((Checksum { bytes_per_checksum: low32(v), ..m }, rest))
                },
                None => None,
            }
        } else {
            match skip_nested_field(2, tag, wire, s) {
                Some(rest) => Some((m, rest)),
                None => None,
            }
        }
    }

    fn new_blank() -> (m: Checksum) {
        Checksum { checksum_type: 0, bytes_per_checksum: 0 }
    }

    fn merge_field<'a>(&mut self, tag: u32, wire: u8, buf: &'a [u8]) -> (r: Result<
        &'a [u8],
        HdfsError,
    >) {
        proof {
            lemma_read_varint_shrinks(buf@);
        }
        if tag == 1 || tag == 2 {
            let (v, rest) = get_integer(wire, buf)?;
            if tag == 1 {
                self.checksum_type = to_signed32(to_low32(v));
            } else {
                self.bytes_per_checksum = to_low32(v);
            }
            Ok(rest)
        } else {
            pass_nested_field(2, tag, wire, buf)
        }
    }
}

/// What a data node says of the checksums that it sends.
#[derive(Clone, Copy, Debug, PartialEq, Eq, Structural)]
pub struct ReadOpChecksumInfo {
    pub checksum: Checksum,
    pub chunk_offset: u64,
}

impl View for ReadOpChecksumInfo {
    type V = ReadOpChecksumInfo;

    open spec fn view(&self) -> ReadOpChecksumInfo {
        *self
    }
}

impl Message for ReadOpChecksumInfo {
    open spec fn blank() -> ReadOpChecksumInfo {
        ReadOpChecksumInfo { checksum: Checksum::blank(), chunk_offset: 0 }
    }

    open spec fn with_field(m: ReadOpChecksumInfo, tag: u32, wire: u8, s: Seq<u8>) -> Option<
        (ReadOpChecksumInfo, Seq<u8>),
    > {
        if tag == 1 {
            match with_nested::<Checksum>(m.checksum, wire, s) {
                Some((checksum, rest)) => Some((ReadOpChecksumInfo { checksum, ..m }, rest)),
                None => None,
            }
        } else if tag == 2 {
            match read_integer(wire, s) {
                Some((v, rest)) => Some((ReadOpChecksumInfo { chunk_offset: v, ..m }, rest)),
                None => None,
            }
        } else {
            match skip_nested_field(1, tag, wire, s) {
                Some(rest) => Some((m, rest)),
                None => None,
            }
        }
    }

    fn new_blank() -> (m: ReadOpChecksumInfo) {
        ReadOpChecksumInfo { checksum: Checksum::new_blank(), chunk_offset: 0 }
    }

    fn merge_field<'a>(&mut self, tag: u32, wire: u8, buf: &'a [u8]) -> (r: Result<
        &'a [u8],
        HdfsError,
    >) {
        proof {
            lemma_read_varint_shrinks(buf@);
        }
        if tag == 1 {
            let mut checksum = self.checksum;
            let rest = merge_nested(&mut checksum, wire, buf)?;
            self.checksum = checksum;
            Ok(rest)
        } else if tag == 2 {
            let (v, rest) = get_integer(wire, buf)?;
            self.chunk_offset = v;
            Ok(rest)
        } else {
            pass_nested_field(1, tag, wire, buf)
        }
    }
}

/// How the checksum of a whole block was computed.
#[derive(Clone, Copy, Debug, PartialEq, Eq, Structural)]
pub struct BlockChecksumOptions {
    pub block_checksum_type: Option<i32>,
    pub stripe_length: Option<u64>,
}

impl View for BlockChecksumOptions {
    type V = BlockChecksumOptions;

    open spec fn view(&self) -> BlockChecksumOptions {
        *self
    }
}

impl Message for BlockChecksumOptions {
    open spec fn blank() -> BlockChecksumOptions {
        BlockChecksumOptions { block_checksum_type: None, stripe_length: None }
    }

    open spec fn with_field(m: BlockChecksumOptions, tag: u32, wire: u8, s: Seq<u8>) -> Option<
        (BlockChecksumOptions, Seq<u8>),
    > {
        if tag == 1 || tag == 2 {
            match read_integer(wire, s) {
                Some((v, rest)) => if tag == 1 {
                    Some(
                        (
                            BlockChecksumOptions {
                                block_checksum_type: Some(signed32(low32(v))),
                                ..m
                            },
                            rest,
                        ),
                    )
                } else {
                    Some((BlockChecksumOptions { stripe_length: Some(v), ..m }, rest))
                },
                None => None,
            }
        } else {
            match skip_nested_field(2, tag, wire, s) {
                Some(rest) => Some((m, rest)),
                None => None,
            }
        }
    }

    fn new_blank() -> (m: BlockChecksumOptions) {
        BlockChecksumOptions { block_checksum_type: None, stripe_length: None }
    }

    fn merge_field<'a>(&mut self, tag: u32, wire: u8, buf: &'a [u8]) -> (r: Result<
        &'a [u8],
        HdfsError,
    >) {
        proof {
            lemma_read_varint_shrinks(buf@);
        }
        if tag == 1 || tag == 2 {
            let (v, rest) = get_integer(wire, buf)?;
            if tag == 1 {
                self.block_checksum_type = Some(to_signed32(to_low32(v)));
            } else {
                self.stripe_length = Some(v);
            }
            Ok(rest)
        } else {
            pass_nested_field(2, tag, wire, buf)
        }
    }
}

/// The checksum of a whole block.
pub struct OpBlockChecksumResponse {
    pub bytes_per_crc: u32,
    pub crc_per_block: u64,
    pub block_checksum: Vec<u8>,
    pub crc_type: Option<i32>,
    pub block_checksum_options: Option<BlockChecksumOptions>,
}

/// What an `OpBlockChecksumResponse` says.
pub struct OpBlockChecksumResponseView {
    pub bytes_per_crc: u32,
    pub crc_per_block: u64,
    pub block_checksum: Seq<u8>,
    pub crc_type: Option<i32>,
    pub block_checksum_options: Option<BlockChecksumOptions>,
}

impl View for OpBlockChecksumResponse {
    type V = OpBlockChecksumResponseView;

    open spec fn view(&self) -> OpBlockChecksumResponseView {
        OpBlockChecksumResponseView {
            bytes_per_crc: self.bytes_per_crc,
            crc_per_block: self.crc_per_block,
            block_checksum: self.block_checksum@,
            crc_type: self.crc_type,
            block_checksum_options: self.block_checksum_options,
        }
    }
}

/// The message that a field holds, or the one without any field.
pub open spec fn or_blank<M: Message>(m: Option<M::V>) -> M::V {
    match m {
        Some(m) => m,
        None => M::blank(),
    }
}

impl Message for OpBlockChecksumResponse {
    open spec fn blank() -> OpBlockChecksumResponseView {
        OpBlockChecksumResponseView {
            bytes_per_crc: 0,
            crc_per_block: 0,
            block_checksum: Seq::empty(),
            crc_type: None,
            block_checksum_options: None,
        }
    }

    open spec fn with_field(
        m: OpBlockChecksumResponseView,
        tag: u32,
        wire: u8,
        s: Seq<u8>,
    ) -> Option<(OpBlockChecksumResponseView, Seq<u8>)> {
        if tag == 1 || tag == 2 || tag == 4 {
            match read_integer(wire, s) {
                Some((v, rest)) => if tag == 1 {
                    Some((OpBlockChecksumResponseView { bytes_per_crc: low32(v), ..m }, rest))
                } else if tag == 2 {
                    Some((OpBlockChecksumResponseView { crc_per_block: v, ..m }, rest))
                } else {
                    Some(
                        (
                            OpBlockChecksumResponseView {
                                crc_type: Some(signed32(low32(v))),
                                ..m
                            },
                            rest,
                        ),
                    )
                },
                None => None,
            }
        } else if tag == 3 {
            match read_bytes(wire, s) {
                Some((v, rest)) => Some(
                    (OpBlockChecksumResponseView { block_checksum: v, ..m }, rest),
                ),
                None => None,
            }
        } else if tag == 5 {
            match with_nested::<BlockChecksumOptions>(
                or_blank::<BlockChecksumOptions>(m.block_checksum_options),
                wire,
                s,
            ) {
                Some((v, rest)) => Some(
                    (OpBlockChecksumResponseView { block_checksum_options: Some(v), ..m }, rest),
                ),
                None => None,
            }
        } else {
            match skip_nested_field(1, tag, wire, s) {
                Some(rest) => Some((m, rest)),
                None => None,
            }
        }
    }

    fn new_blank() -> (m: OpBlockChecksumResponse) {
        OpBlockChecksumResponse {
            bytes_per_crc: 0,
            crc_per_block: 0,
            block_checksum: Vec::new(),
            crc_type: None,
            block_checksum_options: None,
        }
    }

    fn merge_field<'a>(&mut self, tag: u32, wire: u8, buf: &'a [u8]) -> (r: Result<
        &'a [u8],
        HdfsError,
    >) {
        proof {
            lemma_read_varint_shrinks(buf@);
        }
        if tag == 1 || tag == 2 || tag == 4 {
            let (v, rest) = get_integer(wire, buf)?;
            if tag == 1 {
                self.bytes_per_crc = to_low32(v);
            } else if tag == 2 {
                self.crc_per_block = v;
            } else {
                self.crc_type = Some(to_signed32(to_low32(v)));
            }
            Ok(rest)
        } else if tag == 3 {
            let (v, rest) = get_bytes(wire, buf)?;
            self.block_checksum = vstd::slice::slice_to_vec(v);
            Ok(rest)
        } else if tag == 5 {
            let mut options = match self.block_checksum_options {
                Some(options) => options,
                None => BlockChecksumOptions::new_blank(),
            };
            let rest = merge_nested(&mut options, wire, buf)?;
            self.block_checksum_options = Some(options);
            Ok(rest)
        } else {
            pass_nested_field(1, tag, wire, buf)
        }
    }
}

/// What a data node answers to an operation.
pub struct BlockOpResponse {
    pub status: i32,
    pub first_bad_link: Option<String>,
    pub checksum_response: Option<OpBlockChecksumResponse>,
    pub read_op_checksum_info: Option<ReadOpChecksumInfo>,
    pub message: Option<String>,
    pub short_circuit_access_version: Option<u32>,
}

/// What a `BlockOpResponse` says.
pub struct BlockOpResponseView {
    pub status: i32,
    pub first_bad_link: Option<Seq<char>>,
    pub checksum_response: Option<OpBlockChecksumResponseView>,
    pub read_op_checksum_info: Option<ReadOpChecksumInfo>,
    pub message: Option<Seq<char>>,
    pub short_circuit_access_version: Option<u32>,
}

impl View for BlockOpResponse {
    type V = BlockOpResponseView;

    open spec fn view(&self) -> BlockOpResponseView {
        BlockOpResponseView {
            status: self.status,
            first_bad_link: optional_string(self.first_bad_link),
            checksum_response: match self.checksum_response {
                Some(m) => Some(m@),
                None => None,
            },
            read_op_checksum_info: self.read_op_checksum_info,
            message: optional_string(self.message),
            short_circuit_access_version: self.short_circuit_access_version,
        }
    }
}

impl Message for BlockOpResponse {
    open spec fn blank() -> BlockOpResponseView {
        BlockOpResponseView {
            status: 0,
            first_bad_link: None,
            checksum_response: None,
            read_op_checksum_info: None,
            message: None,
            short_circuit_access_version: None,
        }
    }

    open spec fn with_field(m: BlockOpResponseView, tag: u32, wire: u8, s: Seq<u8>) -> Option<
        (BlockOpResponseView, Seq<u8>),
    > {
        if tag == 1 || tag == 6 {
            match read_integer(wire, s) {
                Some((v, rest)) => if tag == 1 {
                    Some((BlockOpResponseView { status: signed32(low32(v)), ..m }, rest))
                } else {
                    Some(
                        (
                            BlockOpResponseView {
                                short_circuit_access_version: Some(low32(v)),
                                ..m
                            },
                            rest,
                        ),
                    )
                },
                None => None,
            }
        } else if tag == 2 || tag == 5 {
            match read_string(wire, s) {
                Some((v, rest)) => if tag == 2 {
                    Some((BlockOpResponseView { first_bad_link: Some(v), ..m }, rest))
                } else {
                    Some((BlockOpResponseView { message: Some(v), ..m }, rest))
                },
                None => None,
            }
        } else if tag == 3 {
            match with_nested::<OpBlockChecksumResponse>(
                or_blank::<OpBlockChecksumResponse>(m.checksum_response),
                wire,
                s,
            ) {
                Some((v, rest)) => Some(
                    (BlockOpResponseView { checksum_response: Some(v), ..m }, rest),
                ),
                None => None,
            }
        } else if tag == 4 {
            match with_nested::<ReadOpChecksumInfo>(
                or_blank::<ReadOpChecksumInfo>(m.read_op_checksum_info),
                wire,
                s,
            ) {
                Some((v, rest)) => Some(
                    (BlockOpResponseView { read_op_checksum_info: Some(v), ..m }, rest),
                ),
                None => None,
            }
        } else {
            match skip_field(tag, wire, s) {
                Some(rest) => Some((m, rest)),
                None => None,
            }
        }
    }

    fn new_blank() -> (m: BlockOpResponse) {
        BlockOpResponse {
            status: 0,
            first_bad_link: None,
            checksum_response: None,
            read_op_checksum_info: None,
            message: None,
            short_circuit_access_version: None,
        }
    }

    fn merge_field<'a>(&mut self, tag: u32, wire: u8, buf: &'a [u8]) -> (r: Result<
        &'a [u8],
        HdfsError,
    >) {
        proof {
            lemma_read_varint_shrinks(buf@);
        }
        if tag == 1 || tag == 6 {
            let (v, rest) = get_integer(wire, buf)?;
            if tag == 1 {
                self.status = to_signed32(to_low32(v));
            } else {
                self.short_circuit_access_version = Some(to_low32(v));
            }
            Ok(rest)
        } else if tag == 2 || tag == 5 {
            let (v, rest) = get_string(wire, buf)?;
            if tag == 2 {
                self.first_bad_link = Some(v);
            } else {
                self.message = Some(v);
            }
            Ok(rest)
        } else if tag == 3 {
            let mut response = match self.checksum_response.take() {
                Some(response) => response,
                None => OpBlockChecksumResponse::new_blank(),
            };
            let rest = merge_nested(&mut response, wire, buf)?;
            self.checksum_response = Some(response);
            Ok(rest)
        } else if tag == 4 {
            let mut info = match self.read_op_checksum_info {
                Some(info) => info,
                None => ReadOpChecksumInfo::new_blank(),
            };
            let rest = merge_nested(&mut info, wire, buf)?;
            self.read_op_checksum_info = Some(info);
            Ok(rest)
        } else {
            pass_field(tag, wire, buf)
        }
    }
}

/// The acknowledgement of a packet by the data nodes of a pipeline.
pub struct PipelineAck {
    pub seqno: i64,
    pub reply: Vec<i32>,
    pub downstream_ack_time_nanos: Option<u64>,
    pub flag: Vec<u32>,
}

/// What a `PipelineAck` says.
pub struct PipelineAckView {
    pub seqno: i64,
    pub reply: Seq<i32>,
    pub downstream_ack_time_nanos: Option<u64>,
    pub flag: Seq<u32>,
}

impl View for PipelineAck {
    type V = PipelineAckView;

    open spec fn view(&self) -> PipelineAckView {
        PipelineAckView {
            seqno: self.seqno,
            reply: self.reply@,
            downstream_ack_time_nanos: self.downstream_ack_time_nanos,
            flag: self.flag@,
        }
    }
}

/// The integers as numbers of 32 bits with a sign.
pub open spec fn all_signed32(vs: Seq<u64>) -> Seq<i32> {
    vs.map_values(|v: u64| signed32(low32(v)))
}

/// The integers as numbers of 32 bits.
pub open spec fn all_low32(vs: Seq<u64>) -> Seq<u32> {
    vs.map_values(|v: u64| low32(v))
}

impl Message for PipelineAck {
    open spec fn blank() -> PipelineAckView {
        PipelineAckView {
            seqno: 0,
            reply: Seq::empty(),
            downstream_ack_time_nanos: None,
            flag: Seq::empty(),
        }
    }

    open spec fn with_field(m: PipelineAckView, tag: u32, wire: u8, s: Seq<u8>) -> Option<
        (PipelineAckView, Seq<u8>),
    > {
        if tag == 1 || tag == 3 {
            match read_integer(wire, s) {
                Some((v, rest)) => if tag == 1 {
                    Some((PipelineAckView { seqno: unzigzag64(v), ..m }, rest))
                } else {
                    Some((PipelineAckView { downstream_ack_time_nanos: Some(v), ..m }, rest))
                },
                None => None,
            }
        } else if tag == 2 || tag == 4 {
            match read_integers(wire, s) {
                Some((vs, rest)) => if tag == 2 {
                    Some((PipelineAckView { reply: m.reply + all_signed32(vs), ..m }, rest))
                } else {
                    Some((PipelineAckView { flag: m.flag + all_low32(vs), ..m }, rest))
                },
                None => None,
            }
        } else {
            match skip_field(tag, wire, s) {
                Some(rest) => Some((m, rest)),
                None => None,
            }
        }
    }

    fn new_blank() -> (m: PipelineAck) {
        PipelineAck {
            seqno: 0,
            reply: Vec::new(),
            downstream_ack_time_nanos: None,
            flag: Vec::new(),
        }
    }

    fn merge_field<'a>(&mut self, tag: u32, wire: u8, buf: &'a [u8]) -> (r: Result<
        &'a [u8],
        HdfsError,
    >) {
        proof {
            lemma_read_varint_shrinks(buf@);
        }
        if tag == 1 || tag == 3 {
            let (v, rest) = get_integer(wire, buf)?;
            if tag == 1 {
                self.seqno = from_zigzag64(v);
            } else {
                self.downstream_ack_time_nanos = Some(v);
            }
            Ok(rest)
        } else if tag == 2 || tag == 4 {
            let (vs, rest) = get_integers(wire, buf)?;
            let mut i: usize = 0;
            if tag == 2 {
                while i < vs.len()
                    invariant
                        i <= vs@.len(),
                        self@ == (PipelineAckView {
                            reply: old(self)@.reply + all_signed32(vs@.take(i as int)),
                            ..old(self)@
                        }),
                    decreases vs@.len() - i,
                {
                    self.reply.push(to_signed32(to_low32(vs[i])));
                    i += 1;
                    assert(self.reply@ =~= old(self)@.reply + all_signed32(vs@.take(i as int)));
                }
            } else {
                while i < vs.len()
                    invariant
                        i <= vs@.len(),
                        self@ == (PipelineAckView {
                            flag: old(self)@.flag + all_low32(vs@.take(i as int)),
                            ..old(self)@
                        }),
                    decreases vs@.len() - i,
                {
                    self.flag.push(to_low32(vs[i]));
                    i += 1;
                    assert(self.flag@ =~= old(self)@.flag + all_low32(vs@.take(i as int)));
                }
            }
            assert(vs@.take(i as int) =~= vs@);
            Ok(rest)
        } else {
            pass_field(tag, wire, buf)
        }
    }
}

// Laws

/// The types of checksums have the numbers 1 and 2; any other number stands for none.
pub proof fn law_checksum_types(m: Checksum)
    ensures
        m.algorithm_of() == Some(ChecksumAlgorithm::Crc32) <==> m.checksum_type == 1,
        m.algorithm_of() == Some(ChecksumAlgorithm::Crc32c) <==> m.checksum_type == 2,
        m.algorithm_of() is None <==> m.checksum_type != 1 && m.checksum_type != 2,
{
}

/// Each field of a checksum sets what it stands for, whatever was read before, and nothing else. A
/// field that it does not have is passed over, and one of the wrong kind is an error.
pub proof fn law_checksum_fields(
    m: Checksum,
    tag: u32,
    v: u64,
    w: u32,
    b: Seq<u8>,
    rest: Seq<u8>,
)
    requires
        1 <= tag < 0x2000_0000,
        b.len() <= u64::MAX,
    ensures
        with_fields::<Checksum>(m, integer_field(1, v) + rest) == with_fields::<
            Checksum,
        >(Checksum { checksum_type: signed32(low32(v)), ..m }, rest),
        with_fields::<Checksum>(m, integer_field(2, v) + rest) == with_fields::<
            Checksum,
        >(Checksum { bytes_per_checksum: low32(v), ..m }, rest),
        tag > 2 ==> passes_over::<Checksum>(m, tag, v, w, b, rest),
        tag == 1 || tag == 2 ==> refuses_bytes::<Checksum>(
            m,
            tag,
            b,
            rest,
        ),
{
    lemma_integer_first::<Checksum>(m, 1, v, rest);
    lemma_integer_first::<Checksum>(m, 2, v, rest);
    lemma_any_first::<Checksum>(m, tag, v, w, b, rest);
}

/// Each field of the information on checksums sets what it stands for, whatever was read before,
/// and nothing else. A field that it does not have is passed over, and one of the wrong kind is an
/// error.
pub proof fn law_read_op_checksum_info_fields(
    m: ReadOpChecksumInfo,
    tag: u32,
    v: u64,
    w: u32,
    b: Seq<u8>,
    rest: Seq<u8>,
)
    requires
        1 <= tag < 0x2000_0000,
        b.len() <= u64::MAX,
    ensures
        with_fields::<ReadOpChecksumInfo>(m, bytes_field(1, b) + rest) == match with_fields::<
            Checksum,
        >(
            m.checksum,
            b,
        ) {
            Some(x) => with_fields::<ReadOpChecksumInfo>(
                ReadOpChecksumInfo { checksum: x, ..m },
                rest,
            ),
            None => None,
        },
        with_fields::<ReadOpChecksumInfo>(m, integer_field(2, v) + rest) == with_fields::<
            ReadOpChecksumInfo,
        >(ReadOpChecksumInfo { chunk_offset: v, ..m }, rest),
        tag > 2 ==> passes_over::<ReadOpChecksumInfo>(m, tag, v, w, b, rest),
        tag == 2 ==> refuses_bytes::<ReadOpChecksumInfo>(
            m,
            tag,
            b,
            rest,
        ),
        tag == 1 ==> refuses_integer::<ReadOpChecksumInfo>(
            m,
            tag,
            v,
            rest,
        ),
{
    lemma_bytes_first::<ReadOpChecksumInfo>(m, 1, b, rest);
    lemma_integer_first::<ReadOpChecksumInfo>(m, 2, v, rest);
    lemma_any_first::<ReadOpChecksumInfo>(m, tag, v, w, b, rest);
}

/// Each field of the options of a checksum sets what it stands for, whatever was read before, and
/// nothing else. A field that it does not have is passed over, and one of the wrong kind is an
/// error.
pub proof fn law_block_checksum_options_fields(
    m: BlockChecksumOptions,
    tag: u32,
    v: u64,
    w: u32,
    b: Seq<u8>,
    rest: Seq<u8>,
)
    requires
        1 <= tag < 0x2000_0000,
        b.len() <= u64::MAX,
    ensures
        with_fields::<BlockChecksumOptions>(m, integer_field(1, v) + rest) == with_fields::<
            BlockChecksumOptions,
        >(BlockChecksumOptions { block_checksum_type: Some(signed32(low32(v))), ..m }, rest),
        with_fields::<BlockChecksumOptions>(m, integer_field(2, v) + rest) == with_fields::<
            BlockChecksumOptions,
        >(BlockChecksumOptions { stripe_length: Some(v), ..m }, rest),
        tag > 2 ==> passes_over::<BlockChecksumOptions>(m, tag, v, w, b, rest),
        tag == 1 || tag == 2 ==> refuses_bytes::<BlockChecksumOptions>(
            m,
            tag,
            b,
            rest,
        ),
{
    lemma_integer_first::<BlockChecksumOptions>(m, 1, v, rest);
    lemma_integer_first::<BlockChecksumOptions>(m, 2, v, rest);
    lemma_any_first::<BlockChecksumOptions>(m, tag, v, w, b, rest);
}

/// Each field of the checksum of a block sets what it stands for, whatever was read before, and
/// nothing else. A field that it does not have is passed over, and one of the wrong kind is an
/// error.
pub proof fn law_op_block_checksum_response_fields(
    m: OpBlockChecksumResponseView,
    tag: u32,
    v: u64,
    w: u32,
    b: Seq<u8>,
    rest: Seq<u8>,
)
    requires
        1 <= tag < 0x2000_0000,
        b.len() <= u64::MAX,
    ensures
        with_fields::<OpBlockChecksumResponse>(m, integer_field(1, v) + rest) == with_fields::<
            OpBlockChecksumResponse,
        >(OpBlockChecksumResponseView { bytes_per_crc: low32(v), ..m }, rest),
        with_fields::<OpBlockChecksumResponse>(m, integer_field(2, v) + rest) == with_fields::<
            OpBlockChecksumResponse,
        >(OpBlockChecksumResponseView { crc_per_block: v, ..m }, rest),
        with_fields::<OpBlockChecksumResponse>(m, bytes_field(3, b) + rest) == with_fields::<
            OpBlockChecksumResponse,
        >(OpBlockChecksumResponseView { block_checksum: b, ..m }, rest),
        with_fields::<OpBlockChecksumResponse>(m, integer_field(4, v) + rest) == with_fields::<
            OpBlockChecksumResponse,
        >(OpBlockChecksumResponseView { crc_type: Some(signed32(low32(v))), ..m }, rest),
        with_fields::<OpBlockChecksumResponse>(m, bytes_field(5, b) + rest) == match with_fields::<
            BlockChecksumOptions,
        >(
            match m.block_checksum_options {
                Some(x) => x,
                None => BlockChecksumOptions::blank(),
            },
            b,
        ) {
            Some(x) => with_fields::<OpBlockChecksumResponse>(
                OpBlockChecksumResponseView { block_checksum_options: Some(x), ..m },
                rest,
            ),
            None => None,
        },
        tag > 5 ==> passes_over::<OpBlockChecksumResponse>(m, tag, v, w, b, rest),
        tag == 1 || tag == 2 || tag == 4 ==> refuses_bytes::<OpBlockChecksumResponse>(
            m,
            tag,
            b,
            rest,
        ),
        tag == 3 || tag == 5 ==> refuses_integer::<OpBlockChecksumResponse>(
            m,
            tag,
            v,
            rest,
        ),
{
    lemma_integer_first::<OpBlockChecksumResponse>(m, 1, v, rest);
    lemma_integer_first::<OpBlockChecksumResponse>(m, 2, v, rest);
    lemma_bytes_first::<OpBlockChecksumResponse>(m, 3, b, rest);
    lemma_integer_first::<OpBlockChecksumResponse>(m, 4, v, rest);
    lemma_bytes_first::<OpBlockChecksumResponse>(m, 5, b, rest);
    lemma_any_first::<OpBlockChecksumResponse>(m, tag, v, w, b, rest);
}

/// Each field of the answer to an operation sets what it stands for, whatever was read before, and
/// nothing else. A field that it does not have is passed over, and one of the wrong kind is an
/// error.
pub proof fn law_block_op_response_fields(
    m: BlockOpResponseView,
    tag: u32,
    v: u64,
    w: u32,
    b: Seq<u8>,
    t: Seq<char>,
    rest: Seq<u8>,
)
    requires
        1 <= tag < 0x2000_0000,
        b.len() <= u64::MAX,
        encode_utf8(t).len() <= u64::MAX,
    ensures
        with_fields::<BlockOpResponse>(m, integer_field(1, v) + rest) == with_fields::<
            BlockOpResponse,
        >(BlockOpResponseView { status: signed32(low32(v)), ..m }, rest),
        with_fields::<BlockOpResponse>(m, string_field(2, t) + rest) == with_fields::<
            BlockOpResponse,
        >(BlockOpResponseView { first_bad_link: Some(t), ..m }, rest),
        with_fields::<BlockOpResponse>(m, bytes_field(3, b) + rest) == match with_fields::<
            OpBlockChecksumResponse,
        >(
            match m.checksum_response {
                Some(x) => x,
                None => OpBlockChecksumResponse::blank(),
            },
            b,
        ) {
            Some(x) => with_fields::<BlockOpResponse>(
                BlockOpResponseView { checksum_response: Some(x), ..m },
                rest,
            ),
            None => None,
        },
        with_fields::<BlockOpResponse>(m, bytes_field(4, b) + rest) == match with_fields::<
            ReadOpChecksumInfo,
        >(
            match m.read_op_checksum_info {
                Some(x) => x,
                None => ReadOpChecksumInfo::blank(),
            },
            b,
        ) {
            Some(x) => with_fields::<BlockOpResponse>(
                BlockOpResponseView { read_op_checksum_info: Some(x), ..m },
                rest,
            ),
            None => None,
        },
        with_fields::<BlockOpResponse>(m, string_field(5, t) + rest) == with_fields::<
            BlockOpResponse,
        >(BlockOpResponseView { message: Some(t), ..m }, rest),
        with_fields::<BlockOpResponse>(m, integer_field(6, v) + rest) == with_fields::<
            BlockOpResponse,
        >(BlockOpResponseView { short_circuit_access_version: Some(low32(v)), ..m }, rest),
        tag > 6 ==> passes_over::<BlockOpResponse>(m, tag, v, w, b, rest),
        tag == 1 || tag == 6 ==> refuses_bytes::<BlockOpResponse>(
            m,
            tag,
            b,
            rest,
        ),
        tag == 2 || tag == 3 || tag == 4 || tag == 5 ==> refuses_integer::<BlockOpResponse>(
            m,
            tag,
            v,
            rest,
        ),
{
    lemma_integer_first::<BlockOpResponse>(m, 1, v, rest);
    lemma_string_first::<BlockOpResponse>(m, 2, t, rest);
    lemma_bytes_first::<BlockOpResponse>(m, 3, b, rest);
    lemma_bytes_first::<BlockOpResponse>(m, 4, b, rest);
    lemma_string_first::<BlockOpResponse>(m, 5, t, rest);
    lemma_integer_first::<BlockOpResponse>(m, 6, v, rest);
    lemma_any_first::<BlockOpResponse>(m, tag, v, w, b, rest);
}

/// Each field of an acknowledgement sets what it stands for, whatever was read before, and
/// nothing else; replies and flags are added, one or many of them. A field that it does not have
/// is passed over, and one of the wrong kind is an error.
pub proof fn law_pipeline_ack_fields(
    m: PipelineAckView,
    tag: u32,
    v: u64,
    w: u32,
    b: Seq<u8>,
    vs: Seq<u64>,
    rest: Seq<u8>,
)
    requires
        1 <= tag < 0x2000_0000,
        b.len() <= u64::MAX,
        packed(vs).len() <= u64::MAX,
    ensures
        with_fields::<PipelineAck>(m, integer_field(1, v) + rest) == with_fields::<PipelineAck>(
            PipelineAckView { seqno: unzigzag64(v), ..m },
            rest,
        ),
        with_fields::<PipelineAck>(m, integer_field(2, v) + rest) == with_fields::<PipelineAck>(
            PipelineAckView { reply: m.reply.push(signed32(low32(v))), ..m },
            rest,
        ),
        with_fields::<PipelineAck>(m, bytes_field(2, packed(vs)) + rest) == with_fields::<
            PipelineAck,
        >(
            PipelineAckView {
                reply: m.reply + Seq::new(vs.len(), |i: int| signed32(low32(vs[i]))),
                ..m
            },
            rest,
        ),
        with_fields::<PipelineAck>(m, integer_field(3, v) + rest) == with_fields::<PipelineAck>(
            PipelineAckView { downstream_ack_time_nanos: Some(v), ..m },
            rest,
        ),
        with_fields::<PipelineAck>(m, integer_field(4, v) + rest) == with_fields::<PipelineAck>(
            PipelineAckView { flag: m.flag.push(low32(v)), ..m },
            rest,
        ),
        with_fields::<PipelineAck>(m, bytes_field(4, packed(vs)) + rest) == with_fields::<
            PipelineAck,
        >(
            PipelineAckView {
                flag: m.flag + Seq::new(vs.len(), |i: int| low32(vs[i])),
                ..m
            },
            rest,
        ),
        tag > 4 ==> passes_over::<PipelineAck>(m, tag, v, w, b, rest),
        tag == 1 || tag == 3 ==> refuses_bytes::<PipelineAck>(m, tag, b, rest),
{
    lemma_integer_first::<PipelineAck>(m, 1, v, rest);
    lemma_integer_first::<PipelineAck>(m, 2, v, rest);
    lemma_bytes_first::<PipelineAck>(m, 2, packed(vs), rest);
    lemma_integer_first::<PipelineAck>(m, 3, v, rest);
    lemma_integer_first::<PipelineAck>(m, 4, v, rest);
    lemma_bytes_first::<PipelineAck>(m, 4, packed(vs), rest);
    lemma_any_first::<PipelineAck>(m, tag, v, w, b, rest);
    law_integers_are_read_back(vs, v, rest);
    assert(m.reply + all_signed32(seq![v]) =~= m.reply.push(signed32(low32(v))));
    assert(m.flag + all_low32(seq![v]) =~= m.flag.push(low32(v)));
    assert(all_signed32(vs) =~= Seq::new(vs.len(), |i: int| signed32(low32(vs[i]))));
    assert(all_low32(vs) =~= Seq::new(vs.len(), |i: int| low32(vs[i])));
}

/// A message without any field says nothing.
pub proof fn law_messages_without_fields()
    ensures
        decoded::<Checksum>(Seq::empty()) == Some(
            Checksum { checksum_type: 0, bytes_per_checksum: 0 },
        ),
        decoded::<ReadOpChecksumInfo>(Seq::empty()) == Some(
            ReadOpChecksumInfo {
                checksum: Checksum { checksum_type: 0, bytes_per_checksum: 0 },
                chunk_offset: 0,
            },
        ),
        decoded::<BlockChecksumOptions>(Seq::empty()) == Some(
            BlockChecksumOptions { block_checksum_type: None, stripe_length: None },
        ),
        decoded::<OpBlockChecksumResponse>(Seq::empty()) == Some(
            OpBlockChecksumResponseView {
                bytes_per_crc: 0,
                crc_per_block: 0,
                block_checksum: Seq::empty(),
                crc_type: None,
                block_checksum_options: None,
            },
        ),
        decoded::<BlockOpResponse>(Seq::empty()) == Some(
            BlockOpResponseView {
                status: 0,
                first_bad_link: None,
                checksum_response: None,
                read_op_checksum_info: None,
                message: None,
                short_circuit_access_version: None,
            },
        ),
        decoded::<PipelineAck>(Seq::empty()) == Some(
            PipelineAckView {
                seqno: 0,
                reply: Seq::empty(),
                downstream_ack_time_nanos: None,
                flag: Seq::empty(),
            },
        ),
{
}

/// What a message of a data node says is what it holds.
pub proof fn law_datanode_messages_say_what_they_hold(
    checksum: Checksum,
    info: ReadOpChecksumInfo,
    options: BlockChecksumOptions,
    block: OpBlockChecksumResponse,
    response: BlockOpResponse,
    ack: PipelineAck,
)
    ensures
        checksum@ == checksum,
        info@ == info,
        options@ == options,
        block@.bytes_per_crc == block.bytes_per_crc,
        block@.crc_per_block == block.crc_per_block,
        block@.block_checksum == block.block_checksum@,
        block@.crc_type == block.crc_type,
        block@.block_checksum_options == block.block_checksum_options,
        response@.status == response.status,
        response@.first_bad_link == optional_string(response.first_bad_link),
        response.checksum_response matches Some(m) ==> response@.checksum_response == Some(m@),
        response.checksum_response is None ==> response@.checksum_response is None,
        response@.read_op_checksum_info == response.read_op_checksum_info,
        response@.message == optional_string(response.message),
        response@.short_circuit_access_version == response.short_circuit_access_version,
        ack@.seqno == ack.seqno,
        ack@.reply == ack.reply@,
        ack@.downstream_ack_time_nanos == ack.downstream_ack_time_nanos,
        ack@.flag == ack.flag@,
{
}

} // verus!
