//! What the bytes of a message say, field by field.

use vstd::prelude::*;
use vstd::utf8::encode_utf8;
use crate::integers::unsigned64;
use crate::wire::{
    bytes_field, delimited, fixed32_field, fixed64_field, integer_field, key,
    lemma_bytes_field_round_trip, lemma_delimited_round_trip, lemma_fixed32_field_round_trip,
    lemma_fixed64_field_round_trip, lemma_integer_field_round_trip, lemma_key_round_trip,
    lemma_varint_round_trip, optional_bytes_field, optional_integer_field, optional_string_field,
    read_bytes, read_delimited, read_fixed32, read_fixed64, read_integer, read_integers, read_key,
    read_string, read_varint, read_varints, skip_field, varint, LENGTH_DELIMITED, SIXTY_FOUR_BIT,
    START_GROUP, THIRTY_TWO_BIT, VARINT,
};

verus! {

/// The value of a field.
pub enum FieldValue {
    Integer(u64),
    EightBytes(u64),
    FourBytes(u32),
    Raw(Seq<u8>),
}

/// A field: its number and its value.
pub type Field = (u32, FieldValue);

/// The value of the given wire type at the start of `s`, and the bytes after it. A group has none.
pub open spec fn read_value(wire: u8, s: Seq<u8>) -> Option<(FieldValue, Seq<u8>)> {
    if wire == VARINT {
        match read_integer(wire, s) {
            Some((v, rest)) => Some((FieldValue::Integer(v), rest)),
            None => None,
        }
    } else if wire == SIXTY_FOUR_BIT {
        match read_fixed64(wire, s) {
            Some((v, rest)) => Some((FieldValue::EightBytes(v), rest)),
            None => None,
        }
    } else if wire == THIRTY_TWO_BIT {
        match read_fixed32(wire, s) {
            Some((v, rest)) => Some((FieldValue::FourBytes(v), rest)),
            None => None,
        }
    } else if wire == LENGTH_DELIMITED {
        match read_bytes(wire, s) {
            Some((v, rest)) => Some((FieldValue::Raw(v), rest)),
            None => None,
        }
    } else {
        None
    }
}

/// The fields that are all of `s`, in order. `None` where one is malformed or a group.
pub open spec fn read_fields(s: Seq<u8>) -> Option<Seq<Field>>
    decreases s.len(),
{
    if s.len() == 0 {
        Some(Seq::empty())
    } else {
        match read_key(s) {
            Some((tag, wire, value)) => match read_value(wire, value) {
                Some((v, rest)) => if rest.len() < s.len() {
                    match read_fields(rest) {
                        Some(more) => Some(seq![(tag, v)] + more),
                        None => None,
                    }
                } else {
                    None
                },
                None => None,
            },
            None => None,
        }
    }
}

/// A field, or none.
pub open spec fn optional_field(tag: u32, v: Option<FieldValue>) -> Seq<Field> {
    match v {
        Some(v) => seq![(tag, v)],
        None => Seq::empty(),
    }
}

/// An integer, if there is one.
pub open spec fn integer(v: Option<u64>) -> Option<FieldValue> {
    match v {
        Some(v) => Some(FieldValue::Integer(v)),
        None => None,
    }
}

/// A number with a sign as an integer, if there is one.
pub open spec fn signed(v: Option<i64>) -> Option<FieldValue> {
    match v {
        Some(v) => Some(FieldValue::Integer(unsigned64(v))),
        None => None,
    }
}

/// A number of 32 bits as one of 64, if there is one.
pub open spec fn widened(v: Option<i32>) -> Option<i64> {
    match v {
        Some(v) => Some(v as i64),
        None => None,
    }
}

/// Bytes, if there are any.
pub open spec fn raw(v: Option<Seq<u8>>) -> Option<FieldValue> {
    match v {
        Some(v) => Some(FieldValue::Raw(v)),
        None => None,
    }
}

/// The bytes of a string, if there is one.
pub open spec fn text(v: Option<Seq<char>>) -> Option<FieldValue> {
    match v {
        Some(v) => Some(FieldValue::Raw(encode_utf8(v))),
        None => None,
    }
}

/// An integer field is read first, then the fields after it.
pub proof fn lemma_read_integer_field(tag: u32, v: u64, rest: Seq<u8>, more: Seq<Field>)
    requires
        1 <= tag < 0x2000_0000,
        read_fields(rest) == Some(more),
    ensures
        read_fields(integer_field(tag, v) + rest) == Some(
            seq![(tag, FieldValue::Integer(v))] + more,
        ),
{
    lemma_integer_field_round_trip(tag, v, rest);
    lemma_key_round_trip(tag, VARINT, rest);
}

/// A field of eight bytes is read first, then the fields after it.
pub proof fn lemma_read_fixed64_field(tag: u32, v: u64, rest: Seq<u8>, more: Seq<Field>)
    requires
        1 <= tag < 0x2000_0000,
        read_fields(rest) == Some(more),
    ensures
        read_fields(fixed64_field(tag, v) + rest) == Some(
            seq![(tag, FieldValue::EightBytes(v))] + more,
        ),
{
    lemma_fixed64_field_round_trip(tag, v, rest);
    lemma_key_round_trip(tag, SIXTY_FOUR_BIT, rest);
}

/// A field of four bytes is read first, then the fields after it.
pub proof fn lemma_read_fixed32_field(tag: u32, v: u32, rest: Seq<u8>, more: Seq<Field>)
    requires
        1 <= tag < 0x2000_0000,
        read_fields(rest) == Some(more),
    ensures
        read_fields(fixed32_field(tag, v) + rest) == Some(
            seq![(tag, FieldValue::FourBytes(v))] + more,
        ),
{
    lemma_fixed32_field_round_trip(tag, v, rest);
    lemma_key_round_trip(tag, THIRTY_TWO_BIT, rest);
}

/// A field of bytes is read first, then the fields after it.
pub proof fn lemma_read_bytes_field(tag: u32, v: Seq<u8>, rest: Seq<u8>, more: Seq<Field>)
    requires
        1 <= tag < 0x2000_0000,
        v.len() <= u64::MAX,
        read_fields(rest) == Some(more),
    ensures
        read_fields(bytes_field(tag, v) + rest) == Some(seq![(tag, FieldValue::Raw(v))] + more),
{
    lemma_bytes_field_round_trip(tag, v, rest);
    lemma_key_round_trip(tag, LENGTH_DELIMITED, rest);
}

/// An integer field, or none, is read first, then the fields after it.
pub proof fn lemma_read_optional_integer(tag: u32, v: Option<u64>, rest: Seq<u8>, more: Seq<Field>)
    requires
        1 <= tag < 0x2000_0000,
        read_fields(rest) == Some(more),
    ensures
        read_fields(optional_integer_field(tag, v) + rest) == Some(
            optional_field(tag, integer(v)) + more,
        ),
{
    match v {
        Some(v) => lemma_read_integer_field(tag, v, rest, more),
        None => {
            assert(Seq::<u8>::empty() + rest =~= rest);
            assert(Seq::<Field>::empty() + more =~= more);
        },
    }
}

/// A field of bytes, or none, is read first, then the fields after it.
pub proof fn lemma_read_optional_bytes(
    tag: u32,
    v: Option<Seq<u8>>,
    rest: Seq<u8>,
    more: Seq<Field>,
)
    requires
        1 <= tag < 0x2000_0000,
        v matches Some(v) ==> v.len() <= u64::MAX,
        read_fields(rest) == Some(more),
    ensures
        read_fields(optional_bytes_field(tag, v) + rest) == Some(
            optional_field(tag, raw(v)) + more,
        ),
{
    match v {
        Some(v) => lemma_read_bytes_field(tag, v, rest, more),
        None => {
            assert(Seq::<u8>::empty() + rest =~= rest);
            assert(Seq::<Field>::empty() + more =~= more);
        },
    }
}

/// A string field, or none, is read first, then the fields after it.
pub proof fn lemma_read_optional_string(
    tag: u32,
    v: Option<Seq<char>>,
    rest: Seq<u8>,
    more: Seq<Field>,
)
    requires
        1 <= tag < 0x2000_0000,
        v matches Some(v) ==> encode_utf8(v).len() <= u64::MAX,
        read_fields(rest) == Some(more),
    ensures
        read_fields(optional_string_field(tag, v) + rest) == Some(
            optional_field(tag, text(v)) + more,
        ),
{
    match v {
        Some(v) => lemma_read_bytes_field(tag, encode_utf8(v), rest, more),
        None => {
            assert(Seq::<u8>::empty() + rest =~= rest);
            assert(Seq::<Field>::empty() + more =~= more);
        },
    }
}

// Laws

/// A key is the integer that is eight times the number of the field and its wire type.
pub proof fn law_keys_are_integers(s: Seq<u8>, tag: u32, wire: u8, rest: Seq<u8>)
    requires
        1 <= tag < 0x2000_0000,
        wire <= 5,
    ensures
        read_key(s) == Some((tag, wire, rest)) <==> read_varint(s) == Some(
            ((8 * tag + wire) as u64, rest),
        ),
        read_key(key(tag, wire) + rest) == Some((tag, wire, rest)),
{
    lemma_key_round_trip(tag, wire, rest);
}

/// A length is followed by as many bytes, which are split off: whatever was put behind its length
/// is read, and what is read with the bytes after it is what stood behind the length.
pub proof fn law_lengths_split(s: Seq<u8>, v: Seq<u8>, rest: Seq<u8>)
    requires
        v.len() <= u64::MAX,
    ensures
        read_delimited(s) == Some((v, rest)) <==> read_varint(s) == Some(
            (v.len() as u64, v + rest),
        ),
        read_delimited(delimited(v) + rest) == Some((v, rest)),
{
    if let Some((n, after)) = read_varint(s) {
        if n <= after.len() {
            assert(after =~= after.take(n as int) + after.skip(n as int));
        }
        if n == v.len() && after == v + rest {
            assert(after.take(n as int) =~= v);
            assert(after.skip(n as int) =~= rest);
        }
    }
    lemma_delimited_round_trip(v, rest);
}

/// A value has its wire type: there is none of another type than the one that
/// is asked for. A value of fixed size needs as many bytes.
pub proof fn law_values_have_their_wire_type(wire: u8, s: Seq<u8>)
    ensures
        read_integer(wire, s) == (if wire == VARINT {
            read_varint(s)
        } else {
            None
        }),
        read_bytes(wire, s) == (if wire == LENGTH_DELIMITED {
            read_delimited(s)
        } else {
            None
        }),
        read_fixed64(wire, s) is Some <==> wire == SIXTY_FOUR_BIT && s.len() >= 8,
        read_fixed32(wire, s) is Some <==> wire == THIRTY_TWO_BIT && s.len() >= 4,
{
}

/// A string is its bytes in UTF-8.
pub proof fn law_strings_are_bytes(wire: u8, s: Seq<u8>, v: Seq<char>, rest: Seq<u8>)
    ensures
        read_string(wire, s) == Some((v, rest)) <==> read_bytes(wire, s) == Some(
            (encode_utf8(v), rest),
        ),
{
    vstd::utf8::encode_utf8_valid_utf8(v);
    vstd::utf8::encode_utf8_decode_utf8(v);
    if let Some((b, _)) = read_bytes(wire, s) {
        if vstd::utf8::valid_utf8(b) {
            vstd::utf8::decode_utf8_encode_utf8(b);
        }
    }
}

/// A value that is passed over is one that could be read, and ends where it would.
pub proof fn law_passing_over_is_reading(tag: u32, wire: u8, s: Seq<u8>)
    requires
        wire != START_GROUP,
    ensures
        skip_field(tag, wire, s) == match read_value(wire, s) {
            Some((_, rest)) => Some(rest),
            None => None,
        },
{
}

/// The bytes of many integers, one after the other.
pub open spec fn packed(vs: Seq<u64>) -> Seq<u8>
    decreases vs.len(),
{
    if vs.len() == 0 {
        Seq::empty()
    } else {
        varint(vs[0] as nat) + packed(vs.skip(1))
    }
}

/// Integers that were put one after the other are read back, and so is one alone.
pub proof fn law_integers_are_read_back(vs: Seq<u64>, v: u64, rest: Seq<u8>)
    requires
        packed(vs).len() <= u64::MAX,
    ensures
        read_varints(packed(vs)) == Some(vs),
        read_integers(LENGTH_DELIMITED, delimited(packed(vs)) + rest) == Some((vs, rest)),
        read_integers(VARINT, varint(v as nat) + rest) == Some((seq![v], rest)),
    decreases vs.len(),
{
    lemma_varint_round_trip(v, rest);
    lemma_delimited_round_trip(packed(vs), rest);
    if vs.len() > 0 {
        law_integers_are_read_back(vs.skip(1), v, rest);
        lemma_varint_round_trip(vs[0], packed(vs.skip(1)));
        assert(seq![vs[0]] + vs.skip(1) =~= vs);
    } else {
        assert(vs =~= Seq::empty());
    }
}

} // verus!
