//! Packets of block data, as they are written to a data node and read from one.

use vstd::prelude::*;
use bytes::{Bytes, BytesMut};
use crate::buffers::{
    bytes_as_slice, bytes_mut_as_slice, bytes_mut_freeze, bytes_mut_put, bytes_mut_put_u32,
    bytes_mut_split, bytes_mut_split_to, bytes_mut_with_capacity, bytes_split_to, contents,
    contents_mut,
};
use crate::checksum::{
    check_chunks, check_of, checksum, checksum_of, chunk_checksums, chunk_count, compared,
    differ_in_one_byte, first_chunk, law_check_compares_with_the_own_checksums,
    law_data_passes_its_own_checksums, law_every_chunk_has_its_checksum,
    law_one_changed_byte_is_noticed, lemma_chunk_checksums_len, lemma_chunk_count,
    lemma_chunk_count_bound, ChecksumAlgorithm, ChunkCheck, CHECKSUM_BYTES,
};
use crate::datanode_messages::{Checksum, ReadOpChecksumInfo};
use crate::error::HdfsError;
use crate::fields::{
    integer, lemma_read_fixed32_field, lemma_read_fixed64_field, lemma_read_integer_field,
    lemma_read_optional_integer, optional_field, read_fields, Field, FieldValue,
};
use crate::integers::{
    be16, be32, be_bytes, be_value, le_bytes, lemma_be_round_trip, lemma_le_round_trip, low32,
    pow256, put_be16, put_be32, signed32, signed64, to_low32, to_signed32, to_signed64,
    to_unsigned32, to_unsigned64, unsigned32, unsigned64,
};
use crate::message::{
    decode, decoded, lemma_any_first, lemma_fixed32_first, lemma_fixed64_first, lemma_integer_first,
    lemma_with_fields_step, passes_over, refuses_bytes, refuses_integer, with_fields, Message,
};
use crate::wire::{
    fixed32_field, fixed64_field, get_fixed32, get_fixed64, get_integer, integer_field,
    lemma_fixed32_field_round_trip, lemma_fixed64_field_round_trip, lemma_integer_field_round_trip,
    lemma_read_varint_shrinks, optional_integer_field, pass_field, put_fixed32_field,
    put_fixed64_field, put_integer_field, put_optional_integer_field, put_slice, read_fixed32,
    read_fixed64, read_integer, skip_field, varint, SIXTY_FOUR_BIT, THIRTY_TWO_BIT, VARINT,
};

verus! {

/// The most bytes that precede the checksums of a packet: four for the size of the packet, two
/// for the size of the header, and the header.
pub const MAX_PACKET_HEADER_SIZE: usize = 33;

/// The header of a packet.
#[derive(Clone, Copy, Debug, PartialEq, Eq, Structural)]
pub struct PacketHeader {
    pub offset_in_block: i64,
    pub seqno: i64,
    pub last_packet_in_block: bool,
    pub data_len: i32,
    pub sync_block: Option<bool>,
}

impl View for PacketHeader {
    type V = PacketHeader;

    open spec fn view(&self) -> PacketHeader {
        *self
    }
}

/// A truth value as the integer of its field.
pub open spec fn truth(v: bool) -> u64 {
    if v {
        1
    } else {
        0
    }
}

/// An optional truth value as the integer of its field.
pub open spec fn optional_truth(v: Option<bool>) -> Option<u64> {
    match v {
        Some(v) => Some(truth(v)),
        None => None,
    }
}

impl PacketHeader {
    /// The header of a packet without any field.
    pub open spec fn zero() -> PacketHeader {
        PacketHeader {
            offset_in_block: 0,
            seqno: 0,
            last_packet_in_block: false,
            data_len: 0,
            sync_block: None,
        }
    }

    /// The bytes of the message.
    pub open spec fn encoded(self) -> Seq<u8> {
        fixed64_field(1, unsigned64(self.offset_in_block)) + fixed64_field(
            2,
            unsigned64(self.seqno),
        ) + integer_field(3, truth(self.last_packet_in_block)) + fixed32_field(
            4,
            unsigned32(self.data_len),
        ) + optional_integer_field(5, optional_truth(self.sync_block))
    }

    /// The bytes of the message.
    pub fn encode_to_vec(&self) -> (r: Vec<u8>)
        ensures
            r@ == self.encoded(),
    {
        let mut r: Vec<u8> = Vec::new();
        put_fixed64_field(&mut r, 1, to_unsigned64(self.offset_in_block));
        put_fixed64_field(&mut r, 2, to_unsigned64(self.seqno));
        put_integer_field(&mut r, 3, if self.last_packet_in_block { 1 } else { 0 });
        put_fixed32_field(&mut r, 4, to_unsigned32(self.data_len));
        let sync_block: Option<u64> = match self.sync_block {
            Some(v) => Some(if v { 1 } else { 0 }),
            None => None,
        };
        put_optional_integer_field(&mut r, 5, sync_block);
        assert(r@ =~= self.encoded());
        r
    }

    /// The number of bytes of the message.
    pub fn encoded_len(&self) -> (n: usize)
        ensures
            n == self.encoded().len(),
    {
        self.encode_to_vec().len()
    }
}

impl Default for PacketHeader {
    fn default() -> (r: PacketHeader)
        ensures
            r == PacketHeader::zero(),
    {
        PacketHeader {
            offset_in_block: 0,
            seqno: 0,
            last_packet_in_block: false,
            data_len: 0,
            sync_block: None,
        }
    }
}

impl Message for PacketHeader {
    open spec fn blank() -> PacketHeader {
        PacketHeader::zero()
    }

    open spec fn with_field(m: PacketHeader, tag: u32, wire: u8, s: Seq<u8>) -> Option<
        (PacketHeader, Seq<u8>),
    > {
        if tag == 1 || tag == 2 {
            match read_fixed64(wire, s) {
                Some((v, rest)) => if tag == 1 {
                    Some((PacketHeader { offset_in_block: signed64(v), ..m }, rest))
                } else {
                    Some((PacketHeader { seqno: signed64(v), ..m }, rest))
                },
                None => None,
            }
        } else if tag == 3 || tag == 5 {
            match read_integer(wire, s) {
                Some((v, rest)) => if tag == 3 {
                    Some((PacketHeader { last_packet_in_block: v != 0, ..m }, rest))
                } else {
                    Some((PacketHeader { sync_block: Some(v != 0), ..m }, rest))
                },
                None => None,
            }
        } else if tag == 4 {
            match read_fixed32(wire, s) {
                Some((v, rest)) => Some((PacketHeader { data_len: signed32(v), ..m }, rest)),
                None => None,
            }
        } else {
            match skip_field(tag, wire, s) {
                Some(rest) => Some((m, rest)),
                None => None,
            }
        }
    }

    fn new_blank() -> (m: PacketHeader) {
        PacketHeader::default()
    }

    fn merge_field<'a>(&mut self, tag: u32, wire: u8, buf: &'a [u8]) -> (r: Result<
        &'a [u8],
        HdfsError,
    >) {
        proof {
            lemma_read_varint_shrinks(buf@);
        }
        if tag == 1 || tag == 2 {
            let (v, rest) = get_fixed64(wire, buf)?;
            if tag == 1 {
                self.offset_in_block = to_signed64(v);
            } else {
                self.seqno = to_signed64(v);
            }
            Ok(rest)
        } else if tag == 3 || tag == 5 {
            let (v, rest) = get_integer(wire, buf)?;
            if tag == 3 {
                self.last_packet_in_block = v != 0;
            } else {
                self.sync_block = Some(v != 0);
            }
            Ok(rest)
        } else if tag == 4 {
            let (v, rest) = get_fixed32(wire, buf)?;
            self.data_len = to_signed32(v);
            Ok(rest)
        } else {
            pass_field(tag, wire, buf)
        }
    }
}

/// A packet: a part of the data of a block, with the checksums of its chunks.
pub struct Packet {
    pub header: PacketHeader,
    checksum: BytesMut,
    data: BytesMut,
    bytes_per_checksum: usize,
    max_data_size: usize,
}

/// What a packet holds.
pub struct PacketView {
    pub header: PacketHeader,
    /// The checksums, one after the other.
    pub checksum: Seq<u8>,
    pub data: Seq<u8>,
    /// The size of a chunk, in a packet that is written.
    pub bytes_per_checksum: nat,
    /// The most data that fits, in a packet that is written.
    pub max_data_size: nat,
}

impl View for Packet {
    type V = PacketView;

    closed spec fn view(&self) -> PacketView {
        PacketView {
            header: self.header,
            checksum: contents_mut(self.checksum),
            data: contents_mut(self.data),
            bytes_per_checksum: self.bytes_per_checksum as nat,
            max_data_size: self.max_data_size as nat,
        }
    }
}

/// The number of chunks in a packet of at most `max_packet_size` bytes. A limit of 0 bytes stands
/// for a packet of one chunk, which is what an append starts with.
pub open spec fn packet_chunks(bytes_per_checksum: u32, max_packet_size: u32) -> nat {
    if max_packet_size > 0 {
        ((max_packet_size - MAX_PACKET_HEADER_SIZE) / (bytes_per_checksum + CHECKSUM_BYTES)) as nat
    } else {
        1
    }
}

impl PacketView {
    /// The packet has room for its data.
    pub open spec fn within_limit(self) -> bool {
        self.data.len() <= self.max_data_size <= isize::MAX
    }

    /// What comes of comparing the data with the checksums.
    pub open spec fn check(self, checksum_info: Option<ReadOpChecksumInfo>) -> ChunkCheck {
        match checksum_info {
            Some(info) => match info.checksum.algorithm_of() {
                Some(algorithm) => check_of(
                    algorithm,
                    self.data,
                    self.checksum,
                    info.checksum.bytes_per_checksum as nat,
                ),
                None => ChunkCheck::Verified,
            },
            None => ChunkCheck::Verified,
        }
    }

    /// The header that goes out with the data.
    pub open spec fn final_header(self) -> PacketHeader {
        PacketHeader { data_len: signed32(low32(self.data.len() as u64)), ..self.header }
    }

    /// The checksums that go out with the data: those that the packet had, and then those of the
    /// data.
    pub open spec fn final_checksum(self) -> Seq<u8> {
        self.checksum + chunk_checksums(
            ChecksumAlgorithm::Crc32c,
            self.data,
            self.bytes_per_checksum,
        )
    }

    /// The number of bytes of the checksums that go out with the data.
    pub open spec fn final_checksum_len(self) -> nat {
        self.checksum.len() + 4 * chunk_count(self.data.len(), self.bytes_per_checksum)
    }

    /// Whether the data can be split into chunks, and the checksums and the data are no more than
    /// a machine can hold.
    pub open spec fn sendable(self) -> bool {
        &&& self.data.len() == 0 || self.bytes_per_checksum > 0
        &&& self.final_checksum_len() <= isize::MAX
        &&& self.final_checksum_len() + self.data.len() + 4 <= usize::MAX
    }

    /// The packet after its data went out.
    pub open spec fn emptied(self) -> PacketView {
        PacketView {
            header: self.final_header(),
            checksum: Seq::empty(),
            data: Seq::empty(),
            ..self
        }
    }
}

impl Packet {
    /// A packet that was read.
    pub fn new(header: PacketHeader, checksum: BytesMut, data: BytesMut) -> (r: Packet)
        ensures
            r@ == (PacketView {
                header,
                checksum: contents_mut(checksum),
                data: contents_mut(data),
                bytes_per_checksum: 0,
                max_data_size: 0,
            }),
    {
        Packet { header, checksum, data, bytes_per_checksum: 0, max_data_size: 0 }
    }

    /// A packet to be filled with the data of a block from `offset` on.
    pub fn empty(offset: i64, seqno: i64, bytes_per_checksum: u32, max_packet_size: u32) -> (r:
        Packet)
        requires
            max_packet_size == 0 || max_packet_size >= MAX_PACKET_HEADER_SIZE,
            bytes_per_checksum + CHECKSUM_BYTES <= usize::MAX,
            packet_chunks(bytes_per_checksum, max_packet_size) * bytes_per_checksum <= isize::MAX,
            packet_chunks(bytes_per_checksum, max_packet_size) * CHECKSUM_BYTES <= isize::MAX,
        ensures
            r@ == (PacketView {
                header: PacketHeader {
                    offset_in_block: offset,
                    seqno,
                    ..PacketHeader::zero()
                },
                checksum: Seq::empty(),
                data: Seq::empty(),
                bytes_per_checksum: bytes_per_checksum as nat,
                max_data_size: packet_chunks(bytes_per_checksum, max_packet_size)
                    * bytes_per_checksum as nat,
            }),
            r@.within_limit(),
    {
        let header = PacketHeader {
            offset_in_block: offset,
            seqno,
            last_packet_in_block: false,
            data_len: 0,
            sync_block: None,
        };
        let num_chunks = Packet::max_packet_chunks(bytes_per_checksum, max_packet_size);
        proof {
            assert(0 <= num_chunks * bytes_per_checksum) by (nonlinear_arith);
        }
        let max_data_size: usize = num_chunks * bytes_per_checksum as usize;
        Packet {
            header,
            checksum: bytes_mut_with_capacity(num_chunks * CHECKSUM_BYTES),
            data: bytes_mut_with_capacity(max_data_size),
            bytes_per_checksum: bytes_per_checksum as usize,
            max_data_size,
        }
    }

    /// The header of the packet.
    pub fn header(&self) -> (r: PacketHeader)
        ensures
            r == self@.header,
    {
        self.header
    }

    /// Sets the header of the packet.
    pub fn set_header(&mut self, header: PacketHeader)
        ensures
            final(self)@ == (PacketView { header, ..old(self)@ }),
    {
        self.header = header;
    }

    /// Marks the packet as the last one of its block. The block is then synced, always.
    pub fn set_last_packet(&mut self)
        ensures
            final(self)@ == (PacketView {
                header: PacketHeader {
                    last_packet_in_block: true,
                    sync_block: Some(true),
                    ..old(self)@.header
                },
                ..old(self)@
            }),
    {
        self.header.last_packet_in_block = true;
        self.header.sync_block = Some(true);
    }

    /// The number of chunks in a packet of at most `max_packet_size` bytes.
    pub fn max_packet_chunks(bytes_per_checksum: u32, max_packet_size: u32) -> (n: usize)
        requires
            max_packet_size == 0 || max_packet_size >= MAX_PACKET_HEADER_SIZE,
            bytes_per_checksum + CHECKSUM_BYTES <= usize::MAX,
        ensures
            n == packet_chunks(bytes_per_checksum, max_packet_size),
    {
        if max_packet_size > 0 {
            let data_size: usize = max_packet_size as usize - MAX_PACKET_HEADER_SIZE;
            let chunk_size: usize = bytes_per_checksum as usize + CHECKSUM_BYTES;
            data_size / chunk_size
        } else {
            1
        }
    }

    /// Takes as much of `buf` into the packet as fits.
    pub fn write(&mut self, buf: &mut Bytes)
        requires
            old(self)@.within_limit(),
        ensures
            ({
                let room = (old(self)@.max_data_size - old(self)@.data.len()) as nat;
                let n = first_chunk(contents(*old(buf)).len(), room) as int;
                &&& final(self)@ == (PacketView {
                    data: old(self)@.data + contents(*old(buf)).take(n),
                    ..old(self)@
                })
                &&& contents(*final(buf)) == contents(*old(buf)).skip(n)
            }),
            final(self)@.within_limit(),
            final(self)@.data + contents(*final(buf)) == old(self)@.data + contents(*old(buf)),
            final(self)@.data.len() == final(self)@.max_data_size || contents(
                *final(buf),
            ).len() == 0,
    {
        let room: usize = self.max_data_size - bytes_mut_as_slice(&self.data).len();
        let len: usize = bytes_as_slice(&*buf).len();
        let n: usize = if room < len { room } else { len };
        let part = bytes_split_to(buf, n);
        bytes_mut_put(&mut self.data, part);
        assert(self@.data + contents(*buf) =~= old(self)@.data + contents(*old(buf)));
    }

    /// Whether nothing more fits.
    pub fn is_full(&self) -> (r: bool)
        ensures
            r == (self@.data.len() == self@.max_data_size),
    {
        bytes_mut_as_slice(&self.data).len() == self.max_data_size
    }

    /// Whether the packet has no data.
    pub fn is_empty(&self) -> (r: bool)
        ensures
            r == (self@.data.len() == 0),
    {
        bytes_mut_as_slice(&self.data).len() == 0
    }

    /// Whether the packet can be sent: its data can be split into chunks, and the checksums and
    /// the data are no more than a machine can hold.
    pub fn can_be_sent(&self) -> (r: bool)
        ensures
            r == self@.sendable(),
    {
        let len: usize = bytes_mut_as_slice(&self.data).len();
        let sums: usize = bytes_mut_as_slice(&self.checksum).len();
        let size: usize = self.bytes_per_checksum;
        if len == 0 {
            sums <= isize::MAX as usize && sums <= usize::MAX - 4
        } else if size == 0 {
            false
        } else {
            proof {
                lemma_chunk_count(len as nat, size as nat);
            }
            let chunks: u128 = ((len - 1) / size) as u128 + 1;
            let total: u128 = sums as u128 + 4 * chunks;
            total <= isize::MAX as u128 && total + len as u128 + 4 <= usize::MAX as u128
        }
    }

    /// Takes the data out of the packet, with its checksums and the header that goes with it.
    pub fn finalize(&mut self) -> (r: (PacketHeader, Bytes, Bytes))
        requires
            old(self)@.data.len() == 0 || old(self)@.bytes_per_checksum > 0,
            old(self)@.final_checksum_len() <= isize::MAX,
        ensures
            r.0 == old(self)@.final_header(),
            contents(r.1) == old(self)@.final_checksum(),
            contents(r.2) == old(self)@.data,
            final(self)@ == old(self)@.emptied(),
    {
        let ghost before = self@;
        let split = bytes_mut_split(&mut self.data);
        let data = bytes_mut_freeze(split);
        let size: usize = self.bytes_per_checksum;
        let mut chunk_start: usize = 0;
        let bytes = bytes_as_slice(&data);
        proof {
            assert(bytes@.skip(0) =~= bytes@);
        }
        while chunk_start < bytes.len()
            invariant
                bytes@ == before.data,
                size == before.bytes_per_checksum,
                before.data.len() == 0 || before.bytes_per_checksum > 0,
                before.final_checksum_len() <= isize::MAX,
                chunk_start <= bytes@.len(),
                self@ == (PacketView {
                    data: Seq::empty(),
                    checksum: self@.checksum,
                    ..before
                }),
                before.final_checksum() == self@.checksum + chunk_checksums(
                    ChecksumAlgorithm::Crc32c,
                    bytes@.skip(chunk_start as int),
                    size as nat,
                ),
            decreases bytes@.len() - chunk_start,
        {
            let ghost left = bytes@.skip(chunk_start as int);
            let chunk_end: usize = if size < bytes.len() - chunk_start {
                chunk_start + size
            } else {
                bytes.len()
            };
            let chunk = vstd::slice::slice_subrange(bytes, chunk_start, chunk_end);
            let chunk_checksum = checksum(ChecksumAlgorithm::Crc32c, chunk);
            let ghost reached = self@.checksum;
            proof {
                let n = first_chunk(left.len(), size as nat);
                assert(chunk_end == chunk_start + n);
                assert(chunk@ =~= left.take(n as int));
                assert(left.skip(n as int) =~= bytes@.skip(chunk_end as int));
                lemma_chunk_checksums_len(ChecksumAlgorithm::Crc32c, left, size as nat);
                lemma_chunk_checksums_len(ChecksumAlgorithm::Crc32c, before.data, size as nat);
                assert(chunk_count(left.len(), size as nat) >= 1);
                assert(before.final_checksum().len() == before.final_checksum_len());
                assert(before.final_checksum().len() == reached.len() + chunk_checksums(
                    ChecksumAlgorithm::Crc32c,
                    left,
                    size as nat,
                ).len());
            }
            bytes_mut_put_u32(&mut self.checksum, chunk_checksum);
            proof {
                assert(reached + chunk_checksums(ChecksumAlgorithm::Crc32c, left, size as nat)
                    =~= self@.checksum + chunk_checksums(
                    ChecksumAlgorithm::Crc32c,
                    bytes@.skip(chunk_end as int),
                    size as nat,
                ));
            }
            chunk_start = chunk_end;
        }
        proof {
            let none = bytes@.skip(chunk_start as int);
            assert(none.len() == 0);
            assert(self@.checksum + chunk_checksums(ChecksumAlgorithm::Crc32c, none, size as nat)
                =~= self@.checksum);
        }
        let split = bytes_mut_split(&mut self.checksum);
        let checksum = bytes_mut_freeze(split);
        self.header.data_len = to_signed32(to_low32(bytes.len() as u64));
        (self.header, checksum, data)
    }

    /// Compares the data with the checksums.
    pub fn check(&self, checksum_info: &Option<ReadOpChecksumInfo>) -> (r: ChunkCheck)
        ensures
            r == self@.check(*checksum_info),
    {
        if let Some(info) = checksum_info {
            if let Some(algorithm) = info.checksum.algorithm() {
                return check_chunks(
                    algorithm,
                    bytes_mut_as_slice(&self.data),
                    bytes_mut_as_slice(&self.checksum),
                    info.checksum.bytes_per_checksum as usize,
                );
            }
        }
        ChunkCheck::Verified
    }

    /// The data of a packet that was read, once it was compared with its checksums, if it came
    /// with any. A packet must come with a checksum for each chunk up to the first that does not
    /// match.
    pub fn get_data(self, checksum_info: &Option<ReadOpChecksumInfo>) -> (r: Result<
        Bytes,
        HdfsError,
    >)
        requires
            self@.check(*checksum_info) != ChunkCheck::OutOfChecksums,
        ensures
            match self@.check(*checksum_info) {
                ChunkCheck::Mismatch => r matches Err(HdfsError::ChecksumError),
                _ => r matches Ok(data) && contents(data) == self@.data,
            },
    {
        match self.check(checksum_info) {
            ChunkCheck::Mismatch => Err(HdfsError::ChecksumError),
            _ => Ok(bytes_mut_freeze(self.data)),
        }
    }

    /// The data of a packet that was read, like `get_data`; `None` where the packet came with too
    /// few checksums.
    pub fn checked_get_data(self, checksum_info: &Option<ReadOpChecksumInfo>) -> (r: Option<
        Result<Bytes, HdfsError>,
    >)
        ensures
            match self@.check(*checksum_info) {
                ChunkCheck::OutOfChecksums => r is None,
                ChunkCheck::Mismatch => r matches Some(Err(HdfsError::ChecksumError)),
                ChunkCheck::Verified => r matches Some(Ok(data)) && contents(data) == self@.data,
            },
    {
        match self.check(checksum_info) {
            ChunkCheck::OutOfChecksums => None,
            _ => Some(self.get_data(checksum_info)),
        }
    }
}

// Packets on the wire

/// A packet as it is sent: what precedes the checksums, the checksums, and the data.
pub struct PacketFrame {
    pub head: Vec<u8>,
    pub checksum: Bytes,
    pub data: Bytes,
}

impl View for PacketFrame {
    type V = Seq<u8>;

    open spec fn view(&self) -> Seq<u8> {
        self.head@ + contents(self.checksum) + contents(self.data)
    }
}

/// The bytes of a packet: the number of those after the header and four more, the number of those
/// of the header, the header, the checksums and the data.
pub open spec fn packet_bytes(header: PacketHeader, checksum: Seq<u8>, data: Seq<u8>) -> Seq<u8> {
    be_bytes((checksum.len() + data.len() + 4) % 0x1_0000_0000, 4) + be_bytes(
        header.encoded().len(),
        2,
    ) + header.encoded() + checksum + data
}

/// Takes the data out of the packet and returns what to send.
pub fn write_packet(packet: &mut Packet) -> (frame: PacketFrame)
    requires
        old(packet)@.sendable(),
    ensures
        frame@ == packet_bytes(
            old(packet)@.final_header(),
            old(packet)@.final_checksum(),
            old(packet)@.data,
        ),
        frame.head@ + contents(frame.checksum) + contents(frame.data) == packet_bytes(
            old(packet)@.final_header(),
            old(packet)@.final_checksum(),
            old(packet)@.data,
        ),
        contents(frame.checksum) == old(packet)@.final_checksum(),
        contents(frame.data) == old(packet)@.data,
        final(packet)@ == old(packet)@.emptied(),
{
    let ghost before = packet@;
    let (header, checksum, data) = packet.finalize();
    proof {
        lemma_chunk_checksums_len(
            ChecksumAlgorithm::Crc32c,
            before.data,
            before.bytes_per_checksum,
        );
        lemma_header_len(header);
    }
    let payload_len: usize = bytes_as_slice(&checksum).len() + bytes_as_slice(&data).len() + 4;
    let header_encoded = header.encode_to_vec();
    let mut head: Vec<u8> = Vec::new();
    put_be32(&mut head, to_low32(payload_len as u64));
    put_be16(&mut head, header_encoded.len() as u16);
    put_slice(&mut head, header_encoded.as_slice());
    let frame = PacketFrame { head, checksum, data };
    assert(frame@ =~= packet_bytes(header, contents(checksum), contents(data)));
    frame
}

/// The number of bytes after the header and four more, and that of the bytes of the header, from
/// the bytes that a packet starts with.
pub fn packet_lengths(payload_len_buf: [u8; 4], header_len_buf: [u8; 2]) -> (r: (usize, usize))
    ensures
        r.0 == be_value(payload_len_buf@),
        r.1 == be_value(header_len_buf@),
{
    (be32(payload_len_buf) as usize, be16(header_len_buf) as usize)
}

/// The number of bytes of a packet after those it starts with.
pub fn remaining_length(payload_length: usize, header_length: usize) -> (n: usize)
    requires
        payload_length >= 4,
        payload_length - 4 + header_length <= usize::MAX,
    ensures
        n == payload_length - 4 + header_length,
{
    payload_length - 4 + header_length
}

/// The packet with the given header, whose checksums and data are `body`.
pub open spec fn packet_with(header: PacketHeader, body: Seq<u8>) -> PacketView {
    let checksum_length = body.len() - header.data_len;
    PacketView {
        header,
        checksum: body.take(checksum_length),
        data: body.skip(checksum_length),
        bytes_per_checksum: 0,
        max_data_size: 0,
    }
}

/// Splits what follows the header of a packet into checksums and data. The data is as long as the
/// header says.
pub fn split_packet(header: PacketHeader, body: BytesMut) -> (r: Packet)
    requires
        0 <= header.data_len <= contents_mut(body).len(),
    ensures
        r@ == packet_with(header, contents_mut(body)),
{
    let mut data = body;
    let checksum_length: usize = bytes_mut_as_slice(&data).len() - header.data_len as usize;
    let checksum = bytes_mut_split_to(&mut data, checksum_length);
    Packet::new(header, checksum, data)
}

/// Reads a packet from the bytes after those it starts with. `None` where the header gives a
/// length of the data that the packet does not have.
pub fn read_packet(header_length: usize, remaining: BytesMut) -> (r: Result<
    Option<Packet>,
    HdfsError,
>)
    requires
        header_length <= contents_mut(remaining).len(),
    ensures
        match decoded::<PacketHeader>(contents_mut(remaining).take(header_length as int)) {
            Some(header) => {
                let body = contents_mut(remaining).skip(header_length as int);
                if 0 <= header.data_len <= body.len() {
                    r matches Ok(Some(packet)) && packet@ == packet_with(header, body)
                } else {
                    r matches Ok(None)
                }
            },
            None => r matches Err(HdfsError::InvalidRPCResponse),
        },
{
    let mut body = remaining;
    let head = bytes_mut_split_to(&mut body, header_length);
    let header = decode::<PacketHeader>(bytes_mut_as_slice(&head))?;
    if header.data_len < 0 || header.data_len as usize > bytes_mut_as_slice(&body).len() {
        return Ok(None);
    }
    Ok(Some(split_packet(header, body)))
}

// Laws

/// The header of a packet takes 25 bytes, or 27 where it says whether the block is synced.
proof fn lemma_header_len(header: PacketHeader)
    ensures
        header.encoded().len() == 25 + if header.sync_block is Some {
            2int
        } else {
            0
        },
{
    reveal_with_fuel(pow256, 9);
    lemma_le_round_trip(unsigned64(header.offset_in_block) as nat, 8);
    lemma_le_round_trip(unsigned64(header.seqno) as nat, 8);
    lemma_le_round_trip(unsigned32(header.data_len) as nat, 4);
    reveal_with_fuel(varint, 2);
}

/// What precedes the checksums of a packet never takes more than `MAX_PACKET_HEADER_SIZE` bytes,
/// and takes as many in a packet that says whether the block is synced.
pub proof fn law_max_packet_header_size(header: PacketHeader)
    ensures
        4 + 2 + header.encoded().len() <= MAX_PACKET_HEADER_SIZE,
        header.sync_block is Some ==> 4 + 2 + header.encoded().len() == MAX_PACKET_HEADER_SIZE,
{
    lemma_header_len(header);
}

/// The header of a packet is read back as it was written.
pub proof fn law_header_round_trip(header: PacketHeader)
    ensures
        decoded::<PacketHeader>(header.encoded()) == Some(header),
{
    let a = unsigned64(header.offset_in_block);
    let b = unsigned64(header.seqno);
    let c = truth(header.last_packet_in_block);
    let d = unsigned32(header.data_len);
    let e = optional_truth(header.sync_block);
    let s5 = optional_integer_field(5, e);
    let s4 = fixed32_field(4, d) + s5;
    let s3 = integer_field(3, c) + s4;
    let s2 = fixed64_field(2, b) + s3;
    let s1 = fixed64_field(1, a) + s2;
    assert(header.encoded() =~= s1);
    lemma_header_len(header);
    let m0 = PacketHeader::zero();
    let m1 = PacketHeader { offset_in_block: header.offset_in_block, ..m0 };
    let m2 = PacketHeader { seqno: header.seqno, ..m1 };
    let m3 = PacketHeader { last_packet_in_block: header.last_packet_in_block, ..m2 };
    let m4 = PacketHeader { data_len: header.data_len, ..m3 };
    lemma_fixed64_field_round_trip(1, a, s2);
    lemma_with_fields_step::<PacketHeader>(
        m0,
        s1,
        1,
        SIXTY_FOUR_BIT,
        le_bytes(a as nat, 8) + s2,
        m1,
        s2,
    );
    lemma_fixed64_field_round_trip(2, b, s3);
    lemma_with_fields_step::<PacketHeader>(
        m1,
        s2,
        2,
        SIXTY_FOUR_BIT,
        le_bytes(b as nat, 8) + s3,
        m2,
        s3,
    );
    lemma_integer_field_round_trip(3, c, s4);
    lemma_with_fields_step::<PacketHeader>(m2, s3, 3, VARINT, varint(c as nat) + s4, m3, s4);
    lemma_fixed32_field_round_trip(4, d, s5);
    lemma_with_fields_step::<PacketHeader>(
        m3,
        s4,
        4,
        THIRTY_TWO_BIT,
        le_bytes(d as nat, 4) + s5,
        m4,
        s5,
    );
    match e {
        Some(v) => {
            lemma_integer_field_round_trip(5, v, Seq::empty());
            assert(s5 + Seq::<u8>::empty() =~= s5);
            lemma_with_fields_step::<PacketHeader>(
                m4,
                s5,
                5,
                VARINT,
                varint(v as nat) + Seq::empty(),
                header,
                Seq::empty(),
            );
        },
        None => {},
    }
}

/// A packet that was sent is read back with the header, the checksums and the data that went out:
/// the lengths that it starts with split it as it was put together.
pub proof fn law_packet_round_trip(packet: PacketView)
    requires
        packet.data.len() <= i32::MAX,
        packet.final_checksum().len() + packet.data.len() + 4 <= u32::MAX,
    ensures
        ({
            let sent = packet_bytes(
                packet.final_header(),
                packet.final_checksum(),
                packet.data,
            );
            let payload_length = be_value(sent.take(4));
            let header_length = be_value(sent.subrange(4, 6));
            let remaining = sent.skip(6);
            let body = remaining.skip(header_length as int);
            &&& payload_length >= 4
            &&& remaining.len() == payload_length - 4 + header_length
            &&& decoded::<PacketHeader>(remaining.take(header_length as int)) == Some(
                packet.final_header(),
            )
            &&& 0 <= packet.final_header().data_len <= body.len()
            &&& packet_with(packet.final_header(), body) == (PacketView {
                header: packet.final_header(),
                checksum: packet.final_checksum(),
                data: packet.data,
                bytes_per_checksum: 0,
                max_data_size: 0,
            })
        }),
{
    let header = packet.final_header();
    let checksum = packet.final_checksum();
    let data = packet.data;
    let h = header.encoded();
    let sent = packet_bytes(header, checksum, data);
    lemma_header_len(header);
    law_header_round_trip(header);
    reveal_with_fuel(pow256, 5);
    lemma_be_round_trip((checksum.len() + data.len() + 4) % 0x1_0000_0000, 4);
    lemma_be_round_trip(h.len(), 2);
    assert(sent.take(4) =~= be_bytes(checksum.len() + data.len() + 4, 4));
    assert(sent.subrange(4, 6) =~= be_bytes(h.len(), 2));
    let remaining = sent.skip(6);
    assert(remaining =~= h + checksum + data);
    assert(remaining.take(h.len() as int) =~= h);
    let body = remaining.skip(h.len() as int);
    assert(body =~= checksum + data);
    assert(header.data_len == data.len());
    assert(body.take(checksum.len() as int) =~= checksum);
    assert(body.skip(checksum.len() as int) =~= data);
}

/// A packet that was filled and sent passes, once read, the check against the checksums that it
/// was sent with.
pub proof fn law_sent_packet_passes_its_check(
    packet: PacketView,
    bytes_per_checksum: u32,
    chunk_offset: u64,
)
    requires
        packet.checksum.len() == 0,
        packet.bytes_per_checksum == bytes_per_checksum,
        packet.data.len() == 0 || bytes_per_checksum > 0,
    ensures
        ({
            let read = PacketView {
                header: packet.final_header(),
                checksum: packet.final_checksum(),
                data: packet.data,
                bytes_per_checksum: 0,
                max_data_size: 0,
            };
            let info = ReadOpChecksumInfo {
                checksum: Checksum { checksum_type: 2, bytes_per_checksum },
                chunk_offset,
            };
            read.check(Some(info)) == ChunkCheck::Verified
        }),
{
    let sums = chunk_checksums(ChecksumAlgorithm::Crc32c, packet.data, packet.bytes_per_checksum);
    law_data_passes_its_own_checksums(
        ChecksumAlgorithm::Crc32c,
        packet.data,
        packet.bytes_per_checksum,
        Seq::empty(),
    );
    assert(packet.checksum + sums =~= sums);
    assert(sums + Seq::<u8>::empty() =~= sums);
}

/// A packet whose data was handed out is not, once one byte of its data or of its checksums was
/// changed: that is a checksum error. The packet came with as many checksums as it has chunks.
pub proof fn law_one_changed_byte_is_a_checksum_error(
    packet: PacketView,
    changed: PacketView,
    info: ReadOpChecksumInfo,
)
    requires
        packet.check(Some(info)) == ChunkCheck::Verified,
        info.checksum.algorithm_of() is Some,
        packet.checksum.len() == 4 * chunk_count(
            packet.data.len(),
            info.checksum.bytes_per_checksum as nat,
        ),
        changed.checksum.len() == packet.checksum.len(),
        differ_in_one_byte(packet.checksum + packet.data, changed.checksum + changed.data),
    ensures
        changed.check(Some(info)) == ChunkCheck::Mismatch,
{
    law_one_changed_byte_is_noticed(
        info.checksum.algorithm_of().unwrap(),
        packet.data,
        packet.checksum,
        changed.data,
        changed.checksum,
        info.checksum.bytes_per_checksum as nat,
    );
}

/// A packet that was filled within its limit takes no more bytes than was asked for.
pub proof fn law_packet_keeps_to_its_size(
    packet: PacketView,
    bytes_per_checksum: u32,
    max_packet_size: u32,
)
    requires
        max_packet_size >= MAX_PACKET_HEADER_SIZE,
        packet.checksum.len() == 0,
        packet.bytes_per_checksum == bytes_per_checksum,
        packet.data.len() <= packet_chunks(bytes_per_checksum, max_packet_size)
            * bytes_per_checksum,
    ensures
        packet_bytes(packet.final_header(), packet.final_checksum(), packet.data).len()
            <= max_packet_size,
{
    let header = packet.final_header();
    let n = packet_chunks(bytes_per_checksum, max_packet_size);
    let size = bytes_per_checksum as nat;
    let checksum = packet.final_checksum();
    lemma_header_len(header);
    lemma_chunk_checksums_len(ChecksumAlgorithm::Crc32c, packet.data, size);
    lemma_chunk_count_bound(packet.data.len(), size, n);
    reveal_with_fuel(pow256, 5);
    lemma_be_round_trip((checksum.len() + packet.data.len() + 4) % 0x1_0000_0000, 4);
    lemma_be_round_trip(header.encoded().len(), 2);
    let room = (max_packet_size - MAX_PACKET_HEADER_SIZE) as int;
    assert(n * size + 4 * n <= room) by (nonlinear_arith)
        requires
            n == room / (size as int + 4),
            room >= 0,
    ;
}

/// The algorithm that the type names, and the whole of the data, decide: with the type 1 the data
/// is compared with its CRC-32 checksums, with the type 2 with its CRC-32C checksums, however
/// many chunks it has. With any other type, or without any, it is not compared.
pub proof fn law_type_names_the_algorithm(packet: PacketView, info: ReadOpChecksumInfo)
    ensures
        packet.check(None) == ChunkCheck::Verified,
        info.checksum.checksum_type != 1 && info.checksum.checksum_type != 2 ==> packet.check(
            Some(info),
        ) == ChunkCheck::Verified,
        info.checksum.bytes_per_checksum > 0 && (info.checksum.checksum_type == 1
            || info.checksum.checksum_type == 2) ==> {
            let algorithm = if info.checksum.checksum_type == 1 {
                ChecksumAlgorithm::Crc32
            } else {
                ChecksumAlgorithm::Crc32c
            };
            let sums = chunk_checksums(
                algorithm,
                packet.data,
                info.checksum.bytes_per_checksum as nat,
            );
            let m = compared(sums, packet.checksum);
            let check = packet.check(Some(info));
            &&& check == ChunkCheck::Verified <==> sums.is_prefix_of(packet.checksum)
            &&& check == ChunkCheck::Mismatch <==> sums.take(m) != packet.checksum.take(m)
            &&& check == ChunkCheck::OutOfChecksums <==> packet.checksum.len() < sums.len()
                && sums.take(m) == packet.checksum.take(m)
        },
        packet.data.len() == 0 ==> packet.check(Some(info)) == ChunkCheck::Verified,
        info.checksum.bytes_per_checksum == 0 && packet.data.len() > 0 && (
        info.checksum.checksum_type == 1 || info.checksum.checksum_type == 2) ==> packet.check(
            Some(info),
        ) != ChunkCheck::Verified,
{
    let size = info.checksum.bytes_per_checksum as nat;
    law_check_compares_with_the_own_checksums(
        ChecksumAlgorithm::Crc32,
        packet.data,
        packet.checksum,
        size,
    );
    law_check_compares_with_the_own_checksums(
        ChecksumAlgorithm::Crc32c,
        packet.data,
        packet.checksum,
        size,
    );
}

/// The header that goes out with a packet is that of the packet, with the length of the data. The
/// packet keeps it, and its limits, and is empty.
pub proof fn law_header_goes_out_as_it_is(packet: PacketView)
    ensures
        packet.final_header().offset_in_block == packet.header.offset_in_block,
        packet.final_header().seqno == packet.header.seqno,
        packet.final_header().last_packet_in_block == packet.header.last_packet_in_block,
        packet.final_header().sync_block == packet.header.sync_block,
        packet.data.len() <= i32::MAX ==> packet.final_header().data_len == packet.data.len(),
        packet.data.len() <= u64::MAX ==> (packet.final_header().data_len - packet.data.len())
            % 0x1_0000_0000 == 0,
        packet.emptied().header == packet.final_header(),
        packet.emptied().data.len() == 0,
        packet.emptied().checksum.len() == 0,
        packet.emptied().bytes_per_checksum == packet.bytes_per_checksum,
        packet.emptied().max_data_size == packet.max_data_size,
{
}

/// The checksums that go out with a packet are those that it had, and then one for each chunk of
/// its data: the CRC-32C of `bytes_per_checksum` bytes, or of those that are left.
pub proof fn law_checksums_of_every_chunk_go_out(packet: PacketView, k: nat)
    requires
        packet.bytes_per_checksum > 0,
        k * packet.bytes_per_checksum < packet.data.len(),
    ensures
        ({
            let size = packet.bytes_per_checksum;
            let had = packet.checksum.len();
            let end = if (k + 1) * size < packet.data.len() {
                (k + 1) * size
            } else {
                packet.data.len()
            };
            let chunk = packet.data.subrange((k * size) as int, end as int);
            let sums = packet.final_checksum();
            &&& sums.take(had as int) == packet.checksum
            &&& sums.len() == had + 4 * ((packet.data.len() - 1) / (size as int) + 1)
            &&& sums.len() == packet.final_checksum_len()
            &&& had + 4 * k + 4 <= sums.len()
            &&& be_value(sums.skip((had + 4 * k) as int).take(4)) == checksum_of(
                ChecksumAlgorithm::Crc32c,
                chunk,
            )
        }),
{
    let size = packet.bytes_per_checksum;
    let had = packet.checksum.len();
    let own = chunk_checksums(ChecksumAlgorithm::Crc32c, packet.data, size);
    let sums = packet.final_checksum();
    law_every_chunk_has_its_checksum(ChecksumAlgorithm::Crc32c, packet.data, size, k);
    lemma_chunk_checksums_len(ChecksumAlgorithm::Crc32c, packet.data, size);
    assert(sums.take(had as int) =~= packet.checksum);
    assert(sums.skip((had + 4 * k) as int).take(4) =~= own.skip((4 * k) as int).take(4));
}

/// A packet without data goes out with the checksums that it had. A packet can be sent where its
/// data can be split into chunks, and what goes out with it is no more than a machine can hold.
pub proof fn law_which_packets_can_be_sent(packet: PacketView)
    ensures
        packet.data.len() == 0 ==> packet.final_checksum() == packet.checksum,
        packet.final_checksum().len() == packet.final_checksum_len(),
        packet.sendable() <==> (packet.data.len() == 0 || packet.bytes_per_checksum > 0)
            && packet.final_checksum().len() <= isize::MAX && packet.final_checksum().len()
            + packet.data.len() + 4 <= usize::MAX,
{
    lemma_chunk_checksums_len(
        ChecksumAlgorithm::Crc32c,
        packet.data,
        packet.bytes_per_checksum,
    );
    if packet.data.len() == 0 {
        assert(packet.final_checksum() =~= packet.checksum);
    }
}

/// As many chunks fit in a packet, each with its checksum, as there is room for after the header,
/// and one more does not fit. A limit of 0 stands for one chunk.
pub proof fn law_as_many_chunks_as_fit(bytes_per_checksum: u32, max_packet_size: u32)
    requires
        max_packet_size == 0 || max_packet_size >= MAX_PACKET_HEADER_SIZE,
    ensures
        max_packet_size == 0 ==> packet_chunks(bytes_per_checksum, max_packet_size) == 1,
        max_packet_size > 0 ==> {
            let n = packet_chunks(bytes_per_checksum, max_packet_size);
            &&& 33 + n * (bytes_per_checksum + 4) <= max_packet_size
            &&& max_packet_size < 33 + (n + 1) * (bytes_per_checksum + 4)
        },
{
    if max_packet_size > 0 {
        let room = max_packet_size - 33;
        let chunk = bytes_per_checksum + 4;
        let n = room / chunk;
        assert(n * chunk <= room && room < (n + 1) * chunk && n >= 0) by (nonlinear_arith)
            requires
                n == room / chunk,
                room >= 0,
                chunk > 0,
        ;
    }
}

/// What is sent of the header of a packet says all of it: the offset in field 1, the sequence
/// number in field 2, whether it is the last packet in field 3, the length of the data in field
/// 4, and whether the block is synced in field 5.
pub proof fn law_packet_header_on_the_wire(header: PacketHeader)
    ensures
        read_fields(header.encoded()) == Some(
            seq![
                (1u32, FieldValue::EightBytes(unsigned64(header.offset_in_block))),
                (2u32, FieldValue::EightBytes(unsigned64(header.seqno))),
                (
                    3u32,
                    FieldValue::Integer(
                        if header.last_packet_in_block {
                            1
                        } else {
                            0
                        },
                    ),
                ),
                (4u32, FieldValue::FourBytes(unsigned32(header.data_len))),
            ] + optional_field(
                5,
                match header.sync_block {
                    Some(v) => Some(
                        FieldValue::Integer(
                            if v {
                                1
                            } else {
                                0
                            },
                        ),
                    ),
                    None => None,
                },
            ),
        ),
{
    let none = Seq::<Field>::empty();
    let a = unsigned64(header.offset_in_block);
    let b = unsigned64(header.seqno);
    let c = truth(header.last_packet_in_block);
    let d = unsigned32(header.data_len);
    let e = optional_truth(header.sync_block);
    let f5 = optional_field(5, integer(e)) + none;
    let f4 = seq![(4u32, FieldValue::FourBytes(d))] + f5;
    let f3 = seq![(3u32, FieldValue::Integer(c))] + f4;
    let f2 = seq![(2u32, FieldValue::EightBytes(b))] + f3;
    let s5 = optional_integer_field(5, e) + Seq::<u8>::empty();
    let s4 = fixed32_field(4, d) + s5;
    let s3 = integer_field(3, c) + s4;
    let s2 = fixed64_field(2, b) + s3;
    lemma_read_optional_integer(5, e, Seq::empty(), none);
    lemma_read_fixed32_field(4, d, s5, f5);
    lemma_read_integer_field(3, c, s4, f4);
    lemma_read_fixed64_field(2, b, s3, f3);
    lemma_read_fixed64_field(1, a, s2, f2);
    assert(header.encoded() =~= fixed64_field(1, a) + s2);
    assert(seq![(1u32, FieldValue::EightBytes(a))] + f2 =~= seq![
        (1u32, FieldValue::EightBytes(a)),
        (2u32, FieldValue::EightBytes(b)),
        (3u32, FieldValue::Integer(c)),
        (4u32, FieldValue::FourBytes(d)),
    ] + optional_field(5, integer(e)));
}

/// Each field of the header of a packet sets what it stands for, whatever was read before, and
/// nothing else. A field that it does not have is passed over, and one of the wrong kind is an
/// error.
pub proof fn law_packet_header_fields(
    m: PacketHeader,
    tag: u32,
    v: u64,
    w: u32,
    b: Seq<u8>,
    rest: Seq<u8>,
)
    requires
        1 <= tag < 0x2000_0000,
        b.len() <= u64::MAX,
    ensures
        with_fields::<PacketHeader>(m, fixed64_field(1, v) + rest) == with_fields::<PacketHeader>(
            PacketHeader { offset_in_block: signed64(v), ..m },
            rest,
        ),
        with_fields::<PacketHeader>(m, fixed64_field(2, v) + rest) == with_fields::<PacketHeader>(
            PacketHeader { seqno: signed64(v), ..m },
            rest,
        ),
        with_fields::<PacketHeader>(m, integer_field(3, v) + rest) == with_fields::<PacketHeader>(
            PacketHeader { last_packet_in_block: v != 0, ..m },
            rest,
        ),
        with_fields::<PacketHeader>(m, fixed32_field(4, w) + rest) == with_fields::<PacketHeader>(
            PacketHeader { data_len: signed32(w), ..m },
            rest,
        ),
        with_fields::<PacketHeader>(m, integer_field(5, v) + rest) == with_fields::<PacketHeader>(
            PacketHeader { sync_block: Some(v != 0), ..m },
            rest,
        ),
        tag > 5 ==> passes_over::<PacketHeader>(m, tag, v, w, b, rest),
        tag <= 5 ==> refuses_bytes::<PacketHeader>(m, tag, b, rest),
        tag == 1 || tag == 2 || tag == 4 ==> refuses_integer::<PacketHeader>(m, tag, v, rest),
{
    lemma_fixed64_first::<PacketHeader>(m, 1, v, rest);
    lemma_fixed64_first::<PacketHeader>(m, 2, v, rest);
    lemma_integer_first::<PacketHeader>(m, 3, v, rest);
    lemma_fixed32_first::<PacketHeader>(m, 4, w, rest);
    lemma_integer_first::<PacketHeader>(m, 5, v, rest);
    lemma_any_first::<PacketHeader>(m, tag, v, w, b, rest);
}

/// What follows the header of a packet is its checksums and then its data, nothing else, and the
/// data is as long as the header says.
pub proof fn law_packet_is_split_by_its_header(header: PacketHeader, body: Seq<u8>)
    requires
        0 <= header.data_len <= body.len(),
    ensures
        packet_with(header, body).header == header,
        packet_with(header, body).checksum + packet_with(header, body).data == body,
        packet_with(header, body).data.len() == header.data_len,
{
    let packet = packet_with(header, body);
    assert(packet.checksum + packet.data =~= body);
}

/// A packet that was made at an offset with a sequence number, filled and sent, is read back with
/// that offset, that sequence number and that data.
pub proof fn law_packet_is_read_where_it_was_written(
    offset: i64,
    seqno: i64,
    packet: PacketView,
    sent: Seq<u8>,
)
    requires
        packet.header.offset_in_block == offset,
        packet.header.seqno == seqno,
        packet.data.len() <= i32::MAX,
        packet.final_checksum().len() + packet.data.len() + 4 <= u32::MAX,
        sent == packet_bytes(packet.final_header(), packet.final_checksum(), packet.data),
    ensures
        ({
            let header_length = be_value(sent.subrange(4, 6)) as int;
            let body = sent.skip(6).skip(header_length);
            decoded::<PacketHeader>(sent.skip(6).take(header_length)) matches Some(header) && {
                &&& header.offset_in_block == offset
                &&& header.seqno == seqno
                &&& header.last_packet_in_block == packet.header.last_packet_in_block
                &&& header.sync_block == packet.header.sync_block
                &&& 0 <= header.data_len <= body.len()
                &&& packet_with(header, body).data == packet.data
                &&& packet_with(header, body).checksum == packet.final_checksum()
            }
        }),
{
    law_packet_round_trip(packet);
    law_header_goes_out_as_it_is(packet);
}

/// What the header of a packet says is what it holds, and what is sent of a packet is its parts.
pub proof fn law_packets_say_what_they_hold(header: PacketHeader, frame: PacketFrame)
    ensures
        header@ == header,
        frame@ == frame.head@ + contents(frame.checksum) + contents(frame.data),
{
}

} // verus!
