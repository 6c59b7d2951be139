//! The wire format of protocol buffers: variable length integers, field keys and field values.
//!
//! A reader takes the bytes that are left and returns the value with the bytes after it. Its
//! meaning is a function on sequences that is `None` where the bytes are malformed.

use vstd::prelude::*;
use vstd::utf8::{decode_utf8, encode_utf8, valid_utf8};
use crate::error::HdfsError;
use crate::integers::{
    get_le32, get_le64, le_bytes, le_value, lemma_le_round_trip, pow256, put_le32, put_le64,
};

verus! {

/// The wire type of integers of variable length.
pub const VARINT: u8 = 0;

/// The wire type of integers of eight bytes.
pub const SIXTY_FOUR_BIT: u8 = 1;

/// The wire type of values that are preceded by their length.
pub const LENGTH_DELIMITED: u8 = 2;

/// The wire type of the start of a group.
pub const START_GROUP: u8 = 3;

/// The wire type of the end of a group.
pub const END_GROUP: u8 = 4;

/// The wire type of integers of four bytes.
pub const THIRTY_TWO_BIT: u8 = 5;

// Integers of variable length

/// The bytes of `v`: seven bits a byte, the lowest first, the top bit set on all but the last.
pub open spec fn varint(v: nat) -> Seq<u8>
    decreases v,
{
    if v < 0x80 {
        seq![v as u8]
    } else {
        seq![(v % 0x80 + 0x80) as u8] + varint(v / 0x80)
    }
}

/// The number of bytes up to and including the first one without the top bit.
pub open spec fn varint_width(s: Seq<u8>) -> Option<nat>
    decreases s.len(),
{
    if s.len() == 0 {
        None
    } else if s[0] < 0x80 {
        Some(1)
    } else {
        match varint_width(s.skip(1)) {
            Some(n) => Some(n + 1),
            None => None,
        }
    }
}

/// The number that the first bytes of `s` spell, up to the first one without the top bit.
pub open spec fn varint_value(s: Seq<u8>) -> nat
    decreases s.len(),
{
    if s.len() == 0 {
        0
    } else if s[0] < 0x80 {
        s[0] as nat
    } else {
        (s[0] - 0x80) as nat + 0x80 * varint_value(s.skip(1))
    }
}

/// The integer at the start of `s` and the bytes after it: at most ten bytes, that spell a
/// number below `2^64`. An integer may take more bytes than it needs.
pub open spec fn read_varint(s: Seq<u8>) -> Option<(u64, Seq<u8>)> {
    match varint_width(s) {
        Some(n) => if n <= 10 && varint_value(s) <= u64::MAX {
            Some((varint_value(s) as u64, s.skip(n as int)))
        } else {
            None
        },
        None => None,
    }
}

/// The error of `prost` for bytes that are not a valid message.
#[verifier::external_type_specification]
#[verifier::external_body]
pub struct ExDecodeError(prost::DecodeError);

/// Calls `prost::encoding::encode_varint`, which appends the integer to the buffer in as few
/// bytes as it needs.
#[verifier::external_body]
pub(crate) fn put_varint(buf: &mut Vec<u8>, value: u64)
    ensures
        final(buf)@ == old(buf)@ + varint(value as nat),
{
    prost::encoding::encode_varint(value, buf);
}

/// Calls `prost::encoding::decode_varint`, which takes an integer off the front of the buffer
/// and fails where the buffer ends before the integer, or the integer is too long or too large.
#[verifier::external_body]
fn take_varint<'a>(buf: &'a [u8]) -> (r: Result<(u64, &'a [u8]), prost::DecodeError>)
    ensures
        match read_varint(buf@) {
            Some((value, rest)) => r matches Ok((x, b)) && x == value && b@ == rest,
            None => r is Err,
        },
{
    let mut rest = buf;
    let value = prost::encoding::decode_varint(&mut rest)?;
    Ok((value, rest))
}

/// Reads an integer of variable length.
pub fn get_varint<'a>(buf: &'a [u8]) -> (r: Result<(u64, &'a [u8]), HdfsError>)
    ensures
        match read_varint(buf@) {
            Some((value, rest)) => r matches Ok((x, b)) && x == value && b@ == rest,
            None => r matches Err(HdfsError::InvalidRPCResponse),
        },
{
    match take_varint(buf) {
        Ok(x) => Ok(x),
        Err(_) => Err(HdfsError::InvalidRPCResponse),
    }
}

/// An integer that is read takes at least one byte.
pub proof fn lemma_read_varint_shrinks(s: Seq<u8>)
    ensures
        read_varint(s) matches Some((_, rest)) ==> rest.len() < s.len(),
{
    lemma_varint_width(s);
}

proof fn lemma_varint_width(s: Seq<u8>)
    ensures
        varint_width(s) matches Some(n) ==> 1 <= n <= s.len(),
    decreases s.len(),
{
    if s.len() > 0 {
        lemma_varint_width(s.skip(1));
    }
}

proof fn lemma_varint_read_back(v: nat, rest: Seq<u8>)
    ensures
        varint_width(varint(v) + rest) == Some(varint(v).len()),
        varint_value(varint(v) + rest) == v,
    decreases v,
{
    let s = varint(v) + rest;
    if v >= 0x80 {
        lemma_varint_read_back(v / 0x80, rest);
        assert(s.skip(1) =~= varint(v / 0x80) + rest);
    }
}

/// `varint(v)` is `n` bytes or fewer where `v < 128^n`.
proof fn lemma_varint_len(v: nat, n: nat)
    requires
        n >= 1,
        v < vstd::arithmetic::power::pow(128, n),
    ensures
        1 <= varint(v).len() <= n,
    decreases n,
{
    if v >= 0x80 {
        reveal_with_fuel(vstd::arithmetic::power::pow, 2);
        assert(n > 1);
        let p = vstd::arithmetic::power::pow(128, (n - 1) as nat);
        assert(vstd::arithmetic::power::pow(128, n) == 128 * p);
        lemma_varint_len(v / 0x80, (n - 1) as nat);
    }
}

/// Reading an integer that was just written gives it back, and leaves what follows.
pub proof fn lemma_varint_round_trip(v: u64, rest: Seq<u8>)
    ensures
        read_varint(varint(v as nat) + rest) == Some((v, rest)),
        1 <= varint(v as nat).len() <= 10,
{
    reveal_with_fuel(vstd::arithmetic::power::pow, 11);
    lemma_varint_len(v as nat, 10);
    lemma_varint_read_back(v as nat, rest);
    assert((varint(v as nat) + rest).skip(varint(v as nat).len() as int) =~= rest);
}

// Field keys

/// The bytes of the key of the field with the number `tag`.
pub open spec fn key(tag: u32, wire: u8) -> Seq<u8> {
    varint((tag * 8 + wire) as nat)
}

/// The number and the wire type of the field whose key is at the start of `s`, and the bytes
/// after the key.
pub open spec fn read_key(s: Seq<u8>) -> Option<(u32, u8, Seq<u8>)> {
    match read_varint(s) {
        Some((k, rest)) => if k <= u32::MAX && k % 8 <= 5 && k / 8 >= 1 {
            Some(((k / 8) as u32, (k % 8) as u8, rest))
        } else {
            None
        },
        None => None,
    }
}

/// Appends the key of a field.
pub fn put_key(buf: &mut Vec<u8>, tag: u32, wire: u8)
    requires
        1 <= tag < 0x2000_0000,
        wire <= 5,
    ensures
        final(buf)@ == old(buf)@ + key(tag, wire),
{
    put_varint(buf, tag as u64 * 8 + wire as u64);
}

/// Reads the key of a field.
pub fn get_key<'a>(buf: &'a [u8]) -> (r: Result<(u32, u8, &'a [u8]), HdfsError>)
    ensures
        match read_key(buf@) {
            Some((tag, wire, rest)) => r matches Ok((t, w, b)) && t == tag && w == wire && b@
                == rest,
            None => r matches Err(HdfsError::InvalidRPCResponse),
        },
{
    let (k, rest) = get_varint(buf)?;
    if k > 0xffff_ffff || k % 8 > 5 || k / 8 < 1 {
        return Err(HdfsError::InvalidRPCResponse);
    }
    Ok(((k / 8) as u32, (k % 8) as u8, rest))
}

/// Reading a key that was just written gives the field back.
pub proof fn lemma_key_round_trip(tag: u32, wire: u8, rest: Seq<u8>)
    requires
        1 <= tag < 0x2000_0000,
        wire <= 5,
    ensures
        read_key(key(tag, wire) + rest) == Some((tag, wire, rest)),
        key(tag, wire).len() >= 1,
{
    lemma_varint_round_trip((tag * 8 + wire) as u64, rest);
}

// Field values

/// The integer value of a field of the given wire type.
pub open spec fn read_integer(wire: u8, s: Seq<u8>) -> Option<(u64, Seq<u8>)> {
    if wire == VARINT {
        read_varint(s)
    } else {
        None
    }
}

/// The integers that are all of `s`, one after the other.
pub open spec fn read_varints(s: Seq<u8>) -> Option<Seq<u64>>
    decreases s.len(),
{
    if s.len() == 0 {
        Some(Seq::empty())
    } else {
        match read_varint(s) {
            Some((v, rest)) => if rest.len() < s.len() {
                match read_varints(rest) {
                    Some(more) => Some(seq![v] + more),
                    None => None,
                }
            } else {
                None
            },
            None => None,
        }
    }
}

/// The integers of a field that may hold many, of the given wire type: one, or a length and as
/// many bytes of them.
pub open spec fn read_integers(wire: u8, s: Seq<u8>) -> Option<(Seq<u64>, Seq<u8>)> {
    if wire == LENGTH_DELIMITED {
        match read_delimited(s) {
            Some((body, rest)) => match read_varints(body) {
                Some(vs) => Some((vs, rest)),
                None => None,
            },
            None => None,
        }
    } else {
        match read_integer(wire, s) {
            Some((v, rest)) => Some((seq![v], rest)),
            None => None,
        }
    }
}

/// The value of eight bytes of a field of the given wire type.
pub open spec fn read_fixed64(wire: u8, s: Seq<u8>) -> Option<(u64, Seq<u8>)> {
    if wire == SIXTY_FOUR_BIT && s.len() >= 8 {
        Some((le_value(s.take(8)) as u64, s.skip(8)))
    } else {
        None
    }
}

/// The value of four bytes of a field of the given wire type.
pub open spec fn read_fixed32(wire: u8, s: Seq<u8>) -> Option<(u32, Seq<u8>)> {
    if wire == THIRTY_TWO_BIT && s.len() >= 4 {
        Some((le_value(s.take(4)) as u32, s.skip(4)))
    } else {
        None
    }
}

/// The length at the start of `s`, as many bytes after it, and the bytes after those.
pub open spec fn read_delimited(s: Seq<u8>) -> Option<(Seq<u8>, Seq<u8>)> {
    match read_varint(s) {
        Some((n, rest)) => if n <= rest.len() {
            Some((rest.take(n as int), rest.skip(n as int)))
        } else {
            None
        },
        None => None,
    }
}

/// The value of a field of the given wire type that is a sequence of bytes.
pub open spec fn read_bytes(wire: u8, s: Seq<u8>) -> Option<(Seq<u8>, Seq<u8>)> {
    if wire == LENGTH_DELIMITED {
        read_delimited(s)
    } else {
        None
    }
}

/// The value of a field of the given wire type that is a string.
pub open spec fn read_string(wire: u8, s: Seq<u8>) -> Option<(Seq<char>, Seq<u8>)> {
    match read_bytes(wire, s) {
        Some((bytes, rest)) => if valid_utf8(bytes) {
            Some((decode_utf8(bytes), rest))
        } else {
            None
        },
        None => None,
    }
}

/// Reads an integer value.
pub fn get_integer<'a>(wire: u8, buf: &'a [u8]) -> (r: Result<(u64, &'a [u8]), HdfsError>)
    ensures
        match read_integer(wire, buf@) {
            Some((value, rest)) => r matches Ok((x, b)) && x == value && b@ == rest,
            None => r matches Err(HdfsError::InvalidRPCResponse),
        },
{
    if wire != VARINT {
        return Err(HdfsError::InvalidRPCResponse);
    }
    get_varint(buf)
}

/// Reads a value of eight bytes.
pub fn get_fixed64<'a>(wire: u8, buf: &'a [u8]) -> (r: Result<(u64, &'a [u8]), HdfsError>)
    ensures
        match read_fixed64(wire, buf@) {
            Some((value, rest)) => r matches Ok((x, b)) && x == value && b@ == rest,
            None => r matches Err(HdfsError::InvalidRPCResponse),
        },
{
    if wire != SIXTY_FOUR_BIT || buf.len() < 8 {
        return Err(HdfsError::InvalidRPCResponse);
    }
    Ok((get_le64(buf), skip(buf, 8)))
}

/// Reads a value of four bytes.
pub fn get_fixed32<'a>(wire: u8, buf: &'a [u8]) -> (r: Result<(u32, &'a [u8]), HdfsError>)
    ensures
        match read_fixed32(wire, buf@) {
            Some((value, rest)) => r matches Ok((x, b)) && x == value && b@ == rest,
            None => r matches Err(HdfsError::InvalidRPCResponse),
        },
{
    if wire != THIRTY_TWO_BIT || buf.len() < 4 {
        return Err(HdfsError::InvalidRPCResponse);
    }
    Ok((get_le32(buf), skip(buf, 4)))
}

/// Reads a length, as many bytes after it, and hands out the bytes after those too.
pub fn get_delimited<'a>(buf: &'a [u8]) -> (r: Result<(&'a [u8], &'a [u8]), HdfsError>)
    ensures
        match read_delimited(buf@) {
            Some((value, rest)) => r matches Ok((x, b)) && x@ == value && b@ == rest,
            None => r matches Err(HdfsError::InvalidRPCResponse),
        },
{
    let (n, rest) = get_varint(buf)?;
    if n > rest.len() as u64 {
        return Err(HdfsError::InvalidRPCResponse);
    }
    let value = vstd::slice::slice_subrange(rest, 0, n as usize);
    assert(value@ =~= rest@.take(n as int));
    Ok((value, skip(rest, n as usize)))
}

/// What is left after a length and as many bytes is the end of the bytes it was read from.
pub proof fn lemma_read_delimited_rest(s: Seq<u8>)
    ensures
        read_delimited(s) matches Some((_, rest)) ==> rest.len() <= s.len() && rest == s.skip(
            s.len() - rest.len(),
        ),
{
    lemma_varint_width(s);
    if let Some((_, rest)) = read_delimited(s) {
        assert(rest =~= s.skip(s.len() - rest.len()));
    }
}

/// Reads the integers of a field that may hold many.
pub fn get_integers<'a>(wire: u8, buf: &'a [u8]) -> (r: Result<(Vec<u64>, &'a [u8]), HdfsError>)
    ensures
        match read_integers(wire, buf@) {
            Some((vs, rest)) => r matches Ok((x, b)) && x@ == vs && b@ == rest && rest.len()
                <= buf@.len(),
            None => r matches Err(HdfsError::InvalidRPCResponse),
        },
{
    proof {
        lemma_read_varint_shrinks(buf@);
    }
    let mut values: Vec<u64> = Vec::new();
    if wire != LENGTH_DELIMITED {
        let (v, rest) = get_integer(wire, buf)?;
        values.push(v);
        assert(values@ =~= seq![v]);
        return Ok((values, rest));
    }
    let (body, rest) = get_delimited(buf)?;
    let mut left = body;
    assert(read_varints(body@) matches Some(vs) ==> vs =~= values@ + vs);
    while left.len() > 0
        invariant
            match read_varints(left@) {
                Some(more) => read_varints(body@) == Some(values@ + more),
                None => read_varints(body@) is None,
            },
            wire == LENGTH_DELIMITED,
            read_delimited(buf@) == Some((body@, rest@)),
        decreases left@.len(),
    {
        proof {
            lemma_read_varint_shrinks(left@);
        }
        let ghost before = values@;
        let (v, after) = get_varint(left)?;
        values.push(v);
        left = after;
        assert(read_varints(left@) matches Some(more) ==> before + (seq![v] + more) =~= values@
            + more);
    }
    assert(values@ + Seq::<u64>::empty() =~= values@);
    Ok((values, rest))
}

/// Reads a sequence of bytes.
pub fn get_bytes<'a>(wire: u8, buf: &'a [u8]) -> (r: Result<(&'a [u8], &'a [u8]), HdfsError>)
    ensures
        match read_bytes(wire, buf@) {
            Some((value, rest)) => r matches Ok((x, b)) && x@ == value && b@ == rest,
            None => r matches Err(HdfsError::InvalidRPCResponse),
        },
{
    if wire != LENGTH_DELIMITED {
        return Err(HdfsError::InvalidRPCResponse);
    }
    get_delimited(buf)
}

/// Calls `prost::encoding::string::merge` on an empty string. It checks the wire type, takes a
/// length and as many bytes off the front of the buffer, and fails where they are not UTF-8.
#[verifier::external_body]
fn take_string<'a>(wire: u8, buf: &'a [u8]) -> (r: Result<(String, &'a [u8]), prost::DecodeError>)
    ensures
        match read_string(wire, buf@) {
            Some((value, rest)) => r matches Ok((x, b)) && x@ == value && b@ == rest,
            None => r is Err,
        },
{
    let wire_type = prost::encoding::WireType::try_from(u64::from(wire))?;
    let mut value = String::new();
    let mut rest = buf;
    let context = prost::encoding::DecodeContext::default();
    prost::encoding::string::merge(wire_type, &mut value, &mut rest, context)?;
    Ok((value, rest))
}

/// Reads a string.
pub fn get_string<'a>(wire: u8, buf: &'a [u8]) -> (r: Result<(String, &'a [u8]), HdfsError>)
    ensures
        match read_string(wire, buf@) {
            Some((value, rest)) => r matches Ok((x, b)) && x@ == value && b@ == rest,
            None => r matches Err(HdfsError::InvalidRPCResponse),
        },
{
    match take_string(wire, buf) {
        Ok(x) => Ok(x),
        Err(_) => Err(HdfsError::InvalidRPCResponse),
    }
}

/// The bytes after the first `n`.
fn skip<'a>(buf: &'a [u8], n: usize) -> (rest: &'a [u8])
    requires
        n <= buf@.len(),
    ensures
        rest@ == buf@.skip(n as int),
{
    let rest = vstd::slice::slice_subrange(buf, n, buf.len());
    assert(rest@ =~= buf@.skip(n as int));
    rest
}

// Unknown fields

/// The bytes after a value of the given wire type, other than a group, that is not looked at.
pub open spec fn skip_value(wire: u8, s: Seq<u8>) -> Option<Seq<u8>> {
    if wire == VARINT {
        match read_varint(s) {
            Some((_, rest)) => Some(rest),
            None => None,
        }
    } else if wire == SIXTY_FOUR_BIT && s.len() >= 8 {
        Some(s.skip(8))
    } else if wire == THIRTY_TWO_BIT && s.len() >= 4 {
        Some(s.skip(4))
    } else if wire == LENGTH_DELIMITED {
        match read_delimited(s) {
            Some((_, rest)) => Some(rest),
            None => None,
        }
    } else {
        None
    }
}

/// The number of bytes that the inside and the end of a group take: the group with the number
/// `tag`, whose start was just before `s`. `None` where `prost` refuses the group, for what it
/// holds or for how deep it nests.
pub uninterp spec fn group_width(tag: u32, s: Seq<u8>) -> Option<nat>;

/// The bytes after a value that is not looked at.
pub open spec fn skip_field(tag: u32, wire: u8, s: Seq<u8>) -> Option<Seq<u8>> {
    if wire == START_GROUP {
        match group_width(tag, s) {
            Some(n) => Some(s.skip(n as int)),
            None => None,
        }
    } else {
        skip_value(wire, s)
    }
}

/// Calls `prost::encoding::skip_field` with a fresh context. It takes a value off the front of
/// the buffer without looking at it: an integer, four or eight bytes, a length and as many bytes,
/// or the fields up to the end of a group. How many bytes a group takes is only named.
#[verifier::external_body]
fn take_field<'a>(tag: u32, wire: u8, buf: &'a [u8]) -> (r: Result<&'a [u8], prost::DecodeError>)
    ensures
        wire == START_GROUP ==> match group_width(tag, buf@) {
            Some(n) => r matches Ok(b) && n <= buf@.len() && b@ == buf@.skip(n as int),
            None => r is Err,
        },
        wire != START_GROUP ==> match skip_value(wire, buf@) {
            Some(rest) => r matches Ok(b) && b@ == rest,
            None => r is Err,
        },
{
    let wire_type = prost::encoding::WireType::try_from(u64::from(wire))?;
    let mut rest = buf;
    let context = prost::encoding::DecodeContext::default();
    prost::encoding::skip_field(wire_type, tag, &mut rest, context)?;
    Ok(rest)
}

/// Passes over a value that is not looked at.
pub fn pass_field<'a>(tag: u32, wire: u8, buf: &'a [u8]) -> (r: Result<&'a [u8], HdfsError>)
    ensures
        match skip_field(tag, wire, buf@) {
            Some(rest) => r matches Ok(b) && b@ == rest && rest.len() <= buf@.len(),
            None => r matches Err(HdfsError::InvalidRPCResponse),
        },
{
    match take_field(tag, wire, buf) {
        Ok(rest) => {
            proof {
                lemma_skip_value_shrinks(wire, buf@);
            }
            Ok(rest)
        },
        Err(_) => Err(HdfsError::InvalidRPCResponse),
    }
}

proof fn lemma_skip_value_shrinks(wire: u8, s: Seq<u8>)
    ensures
        skip_value(wire, s) matches Some(rest) ==> rest.len() <= s.len(),
{
    lemma_read_varint_shrinks(s);
}

// Writing fields

/// Some bytes, preceded by their number.
pub open spec fn delimited(bytes: Seq<u8>) -> Seq<u8> {
    varint(bytes.len()) + bytes
}

/// A field that is an integer.
pub open spec fn integer_field(tag: u32, v: u64) -> Seq<u8> {
    key(tag, VARINT) + varint(v as nat)
}

/// A field of eight bytes.
pub open spec fn fixed64_field(tag: u32, v: u64) -> Seq<u8> {
    key(tag, SIXTY_FOUR_BIT) + le_bytes(v as nat, 8)
}

/// A field of four bytes.
pub open spec fn fixed32_field(tag: u32, v: u32) -> Seq<u8> {
    key(tag, THIRTY_TWO_BIT) + le_bytes(v as nat, 4)
}

/// A field that is a sequence of bytes.
pub open spec fn bytes_field(tag: u32, v: Seq<u8>) -> Seq<u8> {
    key(tag, LENGTH_DELIMITED) + delimited(v)
}

/// A field that is a string.
pub open spec fn string_field(tag: u32, v: Seq<char>) -> Seq<u8> {
    bytes_field(tag, encode_utf8(v))
}

/// A field that is an integer, or nothing.
pub open spec fn optional_integer_field(tag: u32, v: Option<u64>) -> Seq<u8> {
    match v {
        Some(v) => integer_field(tag, v),
        None => Seq::empty(),
    }
}

/// A field that is a sequence of bytes, or nothing.
pub open spec fn optional_bytes_field(tag: u32, v: Option<Seq<u8>>) -> Seq<u8> {
    match v {
        Some(v) => bytes_field(tag, v),
        None => Seq::empty(),
    }
}

/// A field that is a string, or nothing.
pub open spec fn optional_string_field(tag: u32, v: Option<Seq<char>>) -> Seq<u8> {
    match v {
        Some(v) => string_field(tag, v),
        None => Seq::empty(),
    }
}

/// The contents of an optional string.
pub open spec fn optional_string(v: Option<String>) -> Option<Seq<char>> {
    match v {
        Some(v) => Some(v@),
        None => None,
    }
}

/// The contents of an optional sequence of bytes.
pub open spec fn optional_bytes(v: Option<Vec<u8>>) -> Option<Seq<u8>> {
    match v {
        Some(v) => Some(v@),
        None => None,
    }
}

/// Appends some bytes.
pub fn put_slice(buf: &mut Vec<u8>, v: &[u8])
    ensures
        final(buf)@ == old(buf)@ + v@,
{
    buf.extend_from_slice(v);
    assert(buf@ =~= old(buf)@ + v@);
}

/// Appends some bytes, preceded by their number.
pub fn put_delimited(buf: &mut Vec<u8>, v: &[u8])
    ensures
        final(buf)@ == old(buf)@ + delimited(v@),
{
    put_varint(buf, v.len() as u64);
    put_slice(buf, v);
    assert(buf@ =~= old(buf)@ + delimited(v@));
}

/// Appends a field that is an integer.
pub fn put_integer_field(buf: &mut Vec<u8>, tag: u32, v: u64)
    requires
        1 <= tag < 0x2000_0000,
    ensures
        final(buf)@ == old(buf)@ + integer_field(tag, v),
{
    put_key(buf, tag, VARINT);
    put_varint(buf, v);
    assert(buf@ =~= old(buf)@ + integer_field(tag, v));
}

/// Appends a field of eight bytes.
pub fn put_fixed64_field(buf: &mut Vec<u8>, tag: u32, v: u64)
    requires
        1 <= tag < 0x2000_0000,
    ensures
        final(buf)@ == old(buf)@ + fixed64_field(tag, v),
{
    put_key(buf, tag, SIXTY_FOUR_BIT);
    put_le64(buf, v);
    assert(buf@ =~= old(buf)@ + fixed64_field(tag, v));
}

/// Appends a field of four bytes.
pub fn put_fixed32_field(buf: &mut Vec<u8>, tag: u32, v: u32)
    requires
        1 <= tag < 0x2000_0000,
    ensures
        final(buf)@ == old(buf)@ + fixed32_field(tag, v),
{
    put_key(buf, tag, THIRTY_TWO_BIT);
    put_le32(buf, v);
    assert(buf@ =~= old(buf)@ + fixed32_field(tag, v));
}

/// Appends a field that is a sequence of bytes.
pub fn put_bytes_field(buf: &mut Vec<u8>, tag: u32, v: &[u8])
    requires
        1 <= tag < 0x2000_0000,
    ensures
        final(buf)@ == old(buf)@ + bytes_field(tag, v@),
{
    put_key(buf, tag, LENGTH_DELIMITED);
    put_delimited(buf, v);
    assert(buf@ =~= old(buf)@ + bytes_field(tag, v@));
}

/// Appends a field that is a string.
pub fn put_string_field(buf: &mut Vec<u8>, tag: u32, v: &str)
    requires
        1 <= tag < 0x2000_0000,
    ensures
        final(buf)@ == old(buf)@ + string_field(tag, v@),
{
    put_bytes_field(buf, tag, v.as_bytes());
}

/// Appends a field that is an integer, or nothing.
pub fn put_optional_integer_field(buf: &mut Vec<u8>, tag: u32, v: Option<u64>)
    requires
        1 <= tag < 0x2000_0000,
    ensures
        final(buf)@ == old(buf)@ + optional_integer_field(tag, v),
{
    match v {
        Some(v) => put_integer_field(buf, tag, v),
        None => assert(buf@ =~= old(buf)@ + Seq::<u8>::empty()),
    }
}

/// Appends a field that is a sequence of bytes, or nothing.
pub fn put_optional_bytes_field(buf: &mut Vec<u8>, tag: u32, v: &Option<Vec<u8>>)
    requires
        1 <= tag < 0x2000_0000,
    ensures
        final(buf)@ == old(buf)@ + optional_bytes_field(tag, optional_bytes(*v)),
{
    match v {
        Some(v) => put_bytes_field(buf, tag, v.as_slice()),
        None => assert(buf@ =~= old(buf)@ + Seq::<u8>::empty()),
    }
}

/// Appends a field that is a string, or nothing.
pub fn put_optional_string_field(buf: &mut Vec<u8>, tag: u32, v: &Option<String>)
    requires
        1 <= tag < 0x2000_0000,
    ensures
        final(buf)@ == old(buf)@ + optional_string_field(tag, optional_string(*v)),
{
    match v {
        Some(v) => put_string_field(buf, tag, v.as_str()),
        None => assert(buf@ =~= old(buf)@ + Seq::<u8>::empty()),
    }
}

// What is written is read back

/// A field that is an integer is read back as it was written.
pub proof fn lemma_integer_field_round_trip(tag: u32, v: u64, rest: Seq<u8>)
    requires
        1 <= tag < 0x2000_0000,
    ensures
        read_key(integer_field(tag, v) + rest) == Some((tag, VARINT, varint(v as nat) + rest)),
        read_integer(VARINT, varint(v as nat) + rest) == Some((v, rest)),
{
    assert(integer_field(tag, v) + rest =~= key(tag, VARINT) + (varint(v as nat) + rest));
    lemma_key_round_trip(tag, VARINT, varint(v as nat) + rest);
    lemma_varint_round_trip(v, rest);
}

/// A field of eight bytes is read back as it was written.
pub proof fn lemma_fixed64_field_round_trip(tag: u32, v: u64, rest: Seq<u8>)
    requires
        1 <= tag < 0x2000_0000,
    ensures
        read_key(fixed64_field(tag, v) + rest) == Some(
            (tag, SIXTY_FOUR_BIT, le_bytes(v as nat, 8) + rest),
        ),
        read_fixed64(SIXTY_FOUR_BIT, le_bytes(v as nat, 8) + rest) == Some((v, rest)),
{
    let payload = le_bytes(v as nat, 8);
    assert(fixed64_field(tag, v) + rest =~= key(tag, SIXTY_FOUR_BIT) + (payload + rest));
    lemma_key_round_trip(tag, SIXTY_FOUR_BIT, payload + rest);
    reveal_with_fuel(pow256, 9);
    lemma_le_round_trip(v as nat, 8);
    assert((payload + rest).take(8) =~= payload);
    assert((payload + rest).skip(8) =~= rest);
}

/// A field of four bytes is read back as it was written.
pub proof fn lemma_fixed32_field_round_trip(tag: u32, v: u32, rest: Seq<u8>)
    requires
        1 <= tag < 0x2000_0000,
    ensures
        read_key(fixed32_field(tag, v) + rest) == Some(
            (tag, THIRTY_TWO_BIT, le_bytes(v as nat, 4) + rest),
        ),
        read_fixed32(THIRTY_TWO_BIT, le_bytes(v as nat, 4) + rest) == Some((v, rest)),
{
    let payload = le_bytes(v as nat, 4);
    assert(fixed32_field(tag, v) + rest =~= key(tag, THIRTY_TWO_BIT) + (payload + rest));
    lemma_key_round_trip(tag, THIRTY_TWO_BIT, payload + rest);
    reveal_with_fuel(pow256, 5);
    lemma_le_round_trip(v as nat, 4);
    assert((payload + rest).take(4) =~= payload);
    assert((payload + rest).skip(4) =~= rest);
}

/// Bytes that are preceded by their number are read back as they were written.
pub proof fn lemma_delimited_round_trip(v: Seq<u8>, rest: Seq<u8>)
    requires
        v.len() <= u64::MAX,
    ensures
        read_delimited(delimited(v) + rest) == Some((v, rest)),
{
    assert(delimited(v) + rest =~= varint(v.len()) + (v + rest));
    lemma_varint_round_trip(v.len() as u64, v + rest);
    assert((v + rest).take(v.len() as int) =~= v);
    assert((v + rest).skip(v.len() as int) =~= rest);
}

/// A field that is a sequence of bytes is read back as it was written.
pub proof fn lemma_bytes_field_round_trip(tag: u32, v: Seq<u8>, rest: Seq<u8>)
    requires
        1 <= tag < 0x2000_0000,
        v.len() <= u64::MAX,
    ensures
        read_key(bytes_field(tag, v) + rest) == Some((tag, LENGTH_DELIMITED, delimited(v) + rest)),
        read_bytes(LENGTH_DELIMITED, delimited(v) + rest) == Some((v, rest)),
{
    assert(bytes_field(tag, v) + rest =~= key(tag, LENGTH_DELIMITED) + (delimited(v) + rest));
    lemma_key_round_trip(tag, LENGTH_DELIMITED, delimited(v) + rest);
    lemma_delimited_round_trip(v, rest);
}

/// A field that is a string is read back as it was written.
pub proof fn lemma_string_field_round_trip(tag: u32, v: Seq<char>, rest: Seq<u8>)
    requires
        1 <= tag < 0x2000_0000,
        encode_utf8(v).len() <= u64::MAX,
    ensures
        read_key(string_field(tag, v) + rest) == Some(
            (tag, LENGTH_DELIMITED, delimited(encode_utf8(v)) + rest),
        ),
        read_string(LENGTH_DELIMITED, delimited(encode_utf8(v)) + rest) == Some((v, rest)),
{
    lemma_bytes_field_round_trip(tag, encode_utf8(v), rest);
    vstd::utf8::encode_utf8_valid_utf8(v);
    vstd::utf8::encode_utf8_decode_utf8(v);
}

/// What an optional value says is what it holds.
pub proof fn law_optional_values_say_what_they_hold(s: String, v: Vec<u8>)
    ensures
        optional_string(Some(s)) == Some(s@),
        optional_string(None) is None,
        optional_bytes(Some(v)) == Some(v@),
        optional_bytes(None) is None,
{
}

} // verus!
