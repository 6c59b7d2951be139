//! Messages: sequences of fields, read one field at a time.

use vstd::prelude::*;
use vstd::utf8::encode_utf8;
use crate::error::HdfsError;
use crate::integers::le_bytes;
use crate::wire::{
    bytes_field, delimited, fixed32_field, fixed64_field, get_bytes, get_delimited, get_key,
    integer_field, key, lemma_bytes_field_round_trip, lemma_delimited_round_trip,
    lemma_fixed32_field_round_trip, lemma_fixed64_field_round_trip, lemma_integer_field_round_trip,
    lemma_key_round_trip, lemma_read_varint_shrinks, lemma_string_field_round_trip, pass_field,
    put_delimited, put_key, put_slice, read_bytes, read_delimited, read_fixed32, read_fixed64,
    read_key, read_string, read_varint, skip_field, skip_value, string_field, varint, END_GROUP,
    LENGTH_DELIMITED, SIXTY_FOUR_BIT, START_GROUP, THIRTY_TWO_BIT, VARINT,
};

verus! {

/// A type that is read from the fields of a message. The view is what the message says.
pub trait Message: View + Sized {
    /// The message without any field.
    spec fn blank() -> Self::V;

    /// The message `m` after one more field, whose value is at the start of `s`, and the bytes
    /// after the field. `None` where the value is malformed.
    spec fn with_field(m: Self::V, tag: u32, wire: u8, s: Seq<u8>) -> Option<(Self::V, Seq<u8>)>;

    /// The message without any field.
    fn new_blank() -> (m: Self)
        ensures
            m@ == Self::blank(),
    ;

    /// Reads the value of one more field. A message that failed to read is of no further use.
    fn merge_field<'a>(&mut self, tag: u32, wire: u8, buf: &'a [u8]) -> (r: Result<
        &'a [u8],
        HdfsError,
    >)
        requires
            1 <= tag < 0x2000_0000,
        ensures
            match Self::with_field(old(self)@, tag, wire, buf@) {
                Some((m, rest)) => r matches Ok(b) && b@ == rest && rest.len() <= buf@.len()
                    && final(self)@ == m,
                None => r matches Err(HdfsError::InvalidRPCResponse),
            },
    ;
}

/// The message `m` after the fields that are all of `s`. `None` where a field is malformed.
pub open spec fn with_fields<M: Message>(m: M::V, s: Seq<u8>) -> Option<M::V>
    decreases s.len(),
{
    if s.len() == 0 {
        Some(m)
    } else {
        match read_key(s) {
            Some((tag, wire, value)) => match M::with_field(m, tag, wire, value) {
                Some((next, rest)) => if rest.len() < s.len() {
                    with_fields::<M>(next, rest)
                } else {
                    None
                },
                None => None,
            },
            None => None,
        }
    }
}

/// The message whose fields are all of `s`.
pub open spec fn decoded<M: Message>(s: Seq<u8>) -> Option<M::V> {
    with_fields::<M>(M::blank(), s)
}

/// The message at the start of `s`, after its length, and the bytes after it.
pub open spec fn decoded_delimited<M: Message>(s: Seq<u8>) -> Option<(M::V, Seq<u8>)> {
    match read_delimited(s) {
        Some((body, rest)) => match decoded::<M>(body) {
            Some(m) => Some((m, rest)),
            None => None,
        },
        None => None,
    }
}

/// Reads the fields that are all of `buf` into a message.
pub fn merge<M: Message>(message: &mut M, buf: &[u8]) -> (r: Result<(), HdfsError>)
    ensures
        match with_fields::<M>(old(message)@, buf@) {
            Some(m) => r is Ok && final(message)@ == m,
            None => r matches Err(HdfsError::InvalidRPCResponse),
        },
{
    let mut left = buf;
    while left.len() > 0
        invariant
            with_fields::<M>(message@, left@) == with_fields::<M>(old(message)@, buf@),
        decreases left@.len(),
    {
        proof {
            lemma_read_varint_shrinks(left@);
        }
        let (tag, wire, value) = get_key(left)?;
        left = message.merge_field(tag, wire, value)?;
    }
    Ok(())
}

/// Reads a message whose fields are all of `buf`.
pub fn decode<M: Message>(buf: &[u8]) -> (r: Result<M, HdfsError>)
    ensures
        match decoded::<M>(buf@) {
            Some(m) => r matches Ok(x) && x@ == m,
            None => r matches Err(HdfsError::InvalidRPCResponse),
        },
{
    let mut message = M::new_blank();
    merge(&mut message, buf)?;
    Ok(message)
}

/// Reads a message from the start of `buf`, after its length, and hands out the bytes after it.
pub fn decode_length_delimited<'a, M: Message>(buf: &'a [u8]) -> (r: Result<
    (M, &'a [u8]),
    HdfsError,
>)
    ensures
        match decoded_delimited::<M>(buf@) {
            Some((m, rest)) => r matches Ok((x, b)) && x@ == m && b@ == rest && rest.len()
                <= buf@.len(),
            None => r matches Err(HdfsError::InvalidRPCResponse),
        },
{
    proof {
        lemma_read_varint_shrinks(buf@);
    }
    let (body, rest) = get_delimited(buf)?;
    let message = decode::<M>(body)?;
    Ok((message, rest))
}

/// The bytes of a message, preceded by their number.
pub fn delimit(body: &[u8]) -> (r: Vec<u8>)
    ensures
        r@ == delimited(body@),
{
    let mut r: Vec<u8> = Vec::new();
    put_delimited(&mut r, body);
    assert(r@ =~= delimited(body@));
    r
}

/// One field is read, then the fields after it.
pub proof fn lemma_with_fields_step<M: Message>(
    m: M::V,
    s: Seq<u8>,
    tag: u32,
    wire: u8,
    value: Seq<u8>,
    next: M::V,
    rest: Seq<u8>,
)
    requires
        read_key(s) == Some((tag, wire, value)),
        M::with_field(m, tag, wire, value) == Some((next, rest)),
        rest.len() < s.len(),
    ensures
        with_fields::<M>(m, s) == with_fields::<M>(next, rest),
{
    lemma_read_varint_shrinks(s);
}

// Messages inside messages

/// The message `m` after the fields of the message that is the value of a field of the given
/// wire type, and the bytes after the value.
pub open spec fn with_nested<M: Message>(m: M::V, wire: u8, s: Seq<u8>) -> Option<(M::V, Seq<u8>)> {
    match read_bytes(wire, s) {
        Some((body, rest)) => match with_fields::<M>(m, body) {
            Some(next) => Some((next, rest)),
            None => None,
        },
        None => None,
    }
}

/// Reads the fields of the message that is the value of a field.
pub fn merge_nested<'a, M: Message>(message: &mut M, wire: u8, buf: &'a [u8]) -> (r: Result<
    &'a [u8],
    HdfsError,
>)
    ensures
        match with_nested::<M>(old(message)@, wire, buf@) {
            Some((m, rest)) => r matches Ok(b) && b@ == rest && rest.len() <= buf@.len()
                && final(message)@ == m,
            None => r matches Err(HdfsError::InvalidRPCResponse),
        },
{
    proof {
        lemma_read_varint_shrinks(buf@);
    }
    let (body, rest) = get_bytes(wire, buf)?;
    merge(message, body)?;
    Ok(rest)
}

/// A field inside `depth` groups.
pub open spec fn in_groups(field: Seq<u8>, depth: nat) -> Seq<u8>
    decreases depth,
{
    if depth == 0 {
        field
    } else {
        key(1, START_GROUP) + in_groups(field, (depth - 1) as nat) + key(1, END_GROUP)
    }
}

/// The bytes after a value that is not looked at, in a message that is `depth` messages deep. A
/// group may nest as deep there as it may inside `depth` groups.
pub open spec fn skip_nested_field(depth: nat, tag: u32, wire: u8, s: Seq<u8>) -> Option<Seq<u8>> {
    match skip_field(tag, wire, s) {
        Some(rest) => if wire == START_GROUP && depth > 0 && skip_field(
            1,
            START_GROUP,
            in_groups(key(tag, wire) + s.take(s.len() - rest.len()), (depth - 1) as nat) + key(
                1,
                END_GROUP,
            ),
        ) is None {
            None
        } else {
            Some(rest)
        },
        None => None,
    }
}

/// Passes over a value that is not looked at, in a message that is `depth` messages deep.
pub fn pass_nested_field<'a>(depth: u32, tag: u32, wire: u8, buf: &'a [u8]) -> (r: Result<
    &'a [u8],
    HdfsError,
>)
    requires
        1 <= tag < 0x2000_0000,
    ensures
        match skip_nested_field(depth as nat, tag, wire, buf@) {
            Some(rest) => r matches Ok(b) && b@ == rest && rest.len() <= buf@.len(),
            None => r matches Err(HdfsError::InvalidRPCResponse),
        },
{
    let rest = pass_field(tag, wire, buf)?;
    if wire == START_GROUP && depth > 0 {
        let group = vstd::slice::slice_subrange(buf, 0, buf.len() - rest.len());
        assert(group@ =~= buf@.take(buf@.len() - rest@.len()));
        let mut field: Vec<u8> = Vec::new();
        put_key(&mut field, tag, wire);
        put_slice(&mut field, group);
        let ghost inner = key(tag, wire) + group@;
        assert(field@ =~= inner);
        let mut n: u32 = 1;
        while n < depth
            invariant
                1 <= n <= depth,
                field@ == in_groups(inner, (n - 1) as nat),
            decreases depth - n,
        {
            let mut outer: Vec<u8> = Vec::new();
            put_key(&mut outer, 1, START_GROUP);
            put_slice(&mut outer, field.as_slice());
            put_key(&mut outer, 1, END_GROUP);
            assert(outer@ =~= in_groups(inner, n as nat));
            field = outer;
            n += 1;
        }
        put_key(&mut field, 1, END_GROUP);
        pass_field(1, START_GROUP, field.as_slice())?;
    }
    Ok(rest)
}

// What a field of each kind does to a message

/// The message after the rest of the fields, where one field left `r` of `len` bytes.
pub open spec fn go_on<M: Message>(r: Option<(M::V, Seq<u8>)>, len: nat) -> Option<M::V> {
    match r {
        Some((next, rest)) => if rest.len() < len {
            with_fields::<M>(next, rest)
        } else {
            None
        },
        None => None,
    }
}

/// An integer field comes first.
pub proof fn lemma_integer_first<M: Message>(m: M::V, tag: u32, v: u64, rest: Seq<u8>)
    requires
        1 <= tag < 0x2000_0000,
    ensures
        with_fields::<M>(m, integer_field(tag, v) + rest) == go_on::<M>(
            M::with_field(m, tag, VARINT, varint(v as nat) + rest),
            integer_field(tag, v).len() + rest.len(),
        ),
        read_varint(varint(v as nat) + rest) == Some((v, rest)),
        integer_field(tag, v).len() >= 1,
{
    lemma_integer_field_round_trip(tag, v, rest);
    lemma_key_round_trip(tag, VARINT, rest);
}

/// A field of bytes comes first.
pub proof fn lemma_bytes_first<M: Message>(m: M::V, tag: u32, v: Seq<u8>, rest: Seq<u8>)
    requires
        1 <= tag < 0x2000_0000,
        v.len() <= u64::MAX,
    ensures
        with_fields::<M>(m, bytes_field(tag, v) + rest) == go_on::<M>(
            M::with_field(m, tag, LENGTH_DELIMITED, delimited(v) + rest),
            bytes_field(tag, v).len() + rest.len(),
        ),
        read_delimited(delimited(v) + rest) == Some((v, rest)),
        bytes_field(tag, v).len() >= 1,
{
    lemma_bytes_field_round_trip(tag, v, rest);
    lemma_key_round_trip(tag, LENGTH_DELIMITED, rest);
}

/// A string field comes first.
pub proof fn lemma_string_first<M: Message>(m: M::V, tag: u32, v: Seq<char>, rest: Seq<u8>)
    requires
        1 <= tag < 0x2000_0000,
        encode_utf8(v).len() <= u64::MAX,
    ensures
        with_fields::<M>(m, string_field(tag, v) + rest) == go_on::<M>(
            M::with_field(m, tag, LENGTH_DELIMITED, delimited(encode_utf8(v)) + rest),
            string_field(tag, v).len() + rest.len(),
        ),
        read_string(LENGTH_DELIMITED, delimited(encode_utf8(v)) + rest) == Some((v, rest)),
        string_field(tag, v).len() >= 1,
{
    lemma_bytes_first::<M>(m, tag, encode_utf8(v), rest);
    lemma_string_field_round_trip(tag, v, rest);
}

/// A field of eight bytes comes first.
pub proof fn lemma_fixed64_first<M: Message>(m: M::V, tag: u32, v: u64, rest: Seq<u8>)
    requires
        1 <= tag < 0x2000_0000,
    ensures
        with_fields::<M>(m, fixed64_field(tag, v) + rest) == go_on::<M>(
            M::with_field(m, tag, SIXTY_FOUR_BIT, le_bytes(v as nat, 8) + rest),
            fixed64_field(tag, v).len() + rest.len(),
        ),
        read_fixed64(SIXTY_FOUR_BIT, le_bytes(v as nat, 8) + rest) == Some((v, rest)),
        skip_value(SIXTY_FOUR_BIT, le_bytes(v as nat, 8) + rest) == Some(rest),
        fixed64_field(tag, v).len() >= 1,
{
    lemma_fixed64_field_round_trip(tag, v, rest);
    lemma_key_round_trip(tag, SIXTY_FOUR_BIT, rest);
}

/// A field of four bytes comes first.
pub proof fn lemma_fixed32_first<M: Message>(m: M::V, tag: u32, v: u32, rest: Seq<u8>)
    requires
        1 <= tag < 0x2000_0000,
    ensures
        with_fields::<M>(m, fixed32_field(tag, v) + rest) == go_on::<M>(
            M::with_field(m, tag, THIRTY_TWO_BIT, le_bytes(v as nat, 4) + rest),
            fixed32_field(tag, v).len() + rest.len(),
        ),
        read_fixed32(THIRTY_TWO_BIT, le_bytes(v as nat, 4) + rest) == Some((v, rest)),
        skip_value(THIRTY_TWO_BIT, le_bytes(v as nat, 4) + rest) == Some(rest),
        fixed32_field(tag, v).len() >= 1,
{
    lemma_fixed32_field_round_trip(tag, v, rest);
    lemma_key_round_trip(tag, THIRTY_TWO_BIT, rest);
}

/// A field of bytes where something else is due is an error.
pub open spec fn refuses_bytes<M: Message>(m: M::V, tag: u32, v: Seq<u8>, rest: Seq<u8>) -> bool {
    with_fields::<M>(m, bytes_field(tag, v) + rest) is None
}

/// An integer where something else is due is an error.
pub open spec fn refuses_integer<M: Message>(m: M::V, tag: u32, v: u64, rest: Seq<u8>) -> bool {
    with_fields::<M>(m, integer_field(tag, v) + rest) is None
}

/// A field of any kind that is not known leaves the message as it was.
pub open spec fn passes_over<M: Message>(
    m: M::V,
    tag: u32,
    v: u64,
    w: u32,
    b: Seq<u8>,
    rest: Seq<u8>,
) -> bool {
    &&& with_fields::<M>(m, integer_field(tag, v) + rest) == with_fields::<M>(m, rest)
    &&& with_fields::<M>(m, fixed64_field(tag, v) + rest) == with_fields::<M>(m, rest)
    &&& with_fields::<M>(m, fixed32_field(tag, w) + rest) == with_fields::<M>(m, rest)
    &&& with_fields::<M>(m, bytes_field(tag, b) + rest) == with_fields::<M>(m, rest)
}

/// The lemmas on a field of each kind together.
pub proof fn lemma_any_first<M: Message>(
    m: M::V,
    tag: u32,
    v: u64,
    w: u32,
    b: Seq<u8>,
    rest: Seq<u8>,
)
    requires
        1 <= tag < 0x2000_0000,
        b.len() <= u64::MAX,
    ensures
        with_fields::<M>(m, integer_field(tag, v) + rest) == go_on::<M>(
            M::with_field(m, tag, VARINT, varint(v as nat) + rest),
            integer_field(tag, v).len() + rest.len(),
        ),
        with_fields::<M>(m, fixed64_field(tag, v) + rest) == go_on::<M>(
            M::with_field(m, tag, SIXTY_FOUR_BIT, le_bytes(v as nat, 8) + rest),
            fixed64_field(tag, v).len() + rest.len(),
        ),
        with_fields::<M>(m, fixed32_field(tag, w) + rest) == go_on::<M>(
            M::with_field(m, tag, THIRTY_TWO_BIT, le_bytes(w as nat, 4) + rest),
            fixed32_field(tag, w).len() + rest.len(),
        ),
        with_fields::<M>(m, bytes_field(tag, b) + rest) == go_on::<M>(
            M::with_field(m, tag, LENGTH_DELIMITED, delimited(b) + rest),
            bytes_field(tag, b).len() + rest.len(),
        ),
        skip_value(VARINT, varint(v as nat) + rest) == Some(rest),
        skip_value(SIXTY_FOUR_BIT, le_bytes(v as nat, 8) + rest) == Some(rest),
        skip_value(THIRTY_TWO_BIT, le_bytes(w as nat, 4) + rest) == Some(rest),
        skip_value(LENGTH_DELIMITED, delimited(b) + rest) == Some(rest),
        integer_field(tag, v).len() >= 1,
        fixed64_field(tag, v).len() >= 1,
        fixed32_field(tag, w).len() >= 1,
        bytes_field(tag, b).len() >= 1,
{
    lemma_integer_first::<M>(m, tag, v, rest);
    lemma_fixed64_first::<M>(m, tag, v, rest);
    lemma_fixed32_first::<M>(m, tag, w, rest);
    lemma_bytes_first::<M>(m, tag, b, rest);
}

// Laws

/// A message is its fields, one after the other: where a part of them is read, the rest is read
/// into what it gave.
pub proof fn law_fields_are_read_in_turn<M: Message>(m: M::V, tag: u32, wire: u8, s: Seq<u8>)
    requires
        1 <= tag < 0x2000_0000,
        wire <= 5,
    ensures
        with_fields::<M>(m, Seq::empty()) == Some(m),
        M::with_field(m, tag, wire, s) matches Some((next, rest)) ==> rest.len() <= s.len()
            ==> with_fields::<M>(m, key(tag, wire) + s) == with_fields::<M>(next, rest),
        M::with_field(m, tag, wire, s) is None ==> with_fields::<M>(m, key(tag, wire) + s) is None,
        decoded::<M>(s) == with_fields::<M>(M::blank(), s),
        s.len() > 0 && read_key(s) is None ==> with_fields::<M>(m, s) is None,
        s.len() > 0 ==> (read_key(s) matches Some((t, w, value)) ==> with_fields::<M>(m, s)
            == go_on::<M>(M::with_field(m, t, w, value), s.len())),
{
    lemma_key_round_trip(tag, wire, s);
}

/// A value of a message inside others that is passed over is passed over as anywhere, but that a
/// group needs room for the groups around it.
pub proof fn law_groups_need_room(depth: nat, tag: u32, wire: u8, s: Seq<u8>, field: Seq<u8>)
    ensures
        depth == 0 || wire != START_GROUP ==> skip_nested_field(depth, tag, wire, s) == skip_field(
            tag,
            wire,
            s,
        ),
        skip_nested_field(depth, tag, wire, s) matches Some(rest) ==> skip_field(tag, wire, s)
            == Some(rest),
        depth == 1 ==> (skip_field(tag, START_GROUP, s) matches Some(rest) ==> (skip_nested_field(
            depth,
            tag,
            START_GROUP,
            s,
        ) is Some <==> skip_field(
            1,
            START_GROUP,
            key(tag, START_GROUP) + s.take(s.len() - rest.len()) + key(1, END_GROUP),
        ) is Some)),
        in_groups(in_groups(field, 1), depth) == in_groups(field, depth + 1),
        in_groups(field, 1) == key(1, START_GROUP) + field + key(1, END_GROUP),
    decreases depth,
{
    reveal_with_fuel(in_groups, 2);
    if depth > 0 {
        law_groups_need_room((depth - 1) as nat, tag, wire, s, field);
    }
}

/// A message after its length is read, and what follows is left.
pub proof fn law_delimited_message<M: Message>(body: Seq<u8>, rest: Seq<u8>)
    requires
        body.len() <= u64::MAX,
    ensures
        decoded_delimited::<M>(delimited(body) + rest) == match decoded::<M>(body) {
            Some(m) => Some((m, rest)),
            None => None,
        },
        forall|s: Seq<u8>| #[trigger]
            decoded_delimited::<M>(s) == match read_delimited(s) {
                Some((b, r)) => match decoded::<M>(b) {
                    Some(m) => Some((m, r)),
                    None => None,
                },
                None => None,
            },
{
    lemma_delimited_round_trip(body, rest);
}

} // verus!
