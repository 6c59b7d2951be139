use hdfs_connection::error::HdfsError;
use hdfs_connection::wire::{
    get_bytes, get_delimited, get_fixed32, get_fixed64, get_integer, get_integers, get_key,
    get_string, get_varint, pass_field, put_fixed32_field, put_fixed64_field, put_integer_field,
    put_string_field,
};

fn varint(v: u64) -> Vec<u8> {
    let mut r = Vec::new();
    prost::encoding::encode_varint(v, &mut r);
    r
}

#[test]
fn integers_are_read_back() {
    for v in [0, 1, 127, 128, 300, 1 << 35, u64::MAX - 1, u64::MAX] {
        let mut bytes = varint(v);
        bytes.extend(b"rest");
        let (x, rest) = get_varint(&bytes).unwrap();
        assert_eq!(x, v);
        assert_eq!(rest, b"rest");
    }
}

#[test]
fn the_bytes_of_an_integer_field() {
    let mut buf = Vec::new();
    put_integer_field(&mut buf, 1, 150);
    assert_eq!(buf, vec![0x08, 0x96, 0x01]);
    put_integer_field(&mut buf, 0x1fff_ffff, u64::MAX);
    let mut expected = vec![0x08, 0x96, 0x01];
    prost::encoding::uint64::encode(0x1fff_ffff, &u64::MAX, &mut expected);
    assert_eq!(buf, expected);
}

#[test]
fn an_integer_may_be_longer_than_it_needs() {
    assert_eq!(get_varint(&[0x80, 0x80, 0x00, 9]).unwrap(), (0, &[9u8][..]));
    assert_eq!(
        get_varint(&[0x81, 0x80, 0x80, 0x80, 0x80, 0x80, 0x80, 0x80, 0x80, 0x00]).unwrap().0,
        1
    );
}

#[test]
fn integers_that_are_malformed() {
    let ten = [0xffu8; 10];
    let mut too_large = [0xffu8; 10];
    too_large[9] = 2;
    let mut too_long = [0x80u8; 12];
    too_long[10] = 1;
    for bytes in [&[][..], &[0x80], &ten, &too_large, &too_long] {
        assert!(matches!(get_varint(bytes), Err(HdfsError::InvalidRPCResponse)));
        let mut copy = bytes;
        assert!(prost::encoding::decode_varint(&mut copy).is_err());
    }
}

#[test]
fn keys_are_read() {
    assert_eq!(get_key(&[0x0a, 1]).unwrap(), (1, 2, &[1u8][..]));
    for bytes in [&[0x02][..], &[0x0e], &[0x0f], &[0x80, 0x80, 0x80, 0x80, 0x10], &[]] {
        assert!(get_key(bytes).is_err());
        let mut copy = bytes;
        assert!(prost::encoding::decode_key(&mut copy).is_err());
    }
}

#[test]
fn values_of_a_fixed_size() {
    let mut buf = Vec::new();
    put_fixed64_field(&mut buf, 1, 0x0102_0304_0506_0708);
    assert_eq!(buf, vec![0x09, 8, 7, 6, 5, 4, 3, 2, 1]);
    assert_eq!(get_fixed64(1, &buf[1..]).unwrap().0, 0x0102_0304_0506_0708);
    let mut buf = Vec::new();
    put_fixed32_field(&mut buf, 2, 0x0102_0304);
    assert_eq!(buf, vec![0x15, 4, 3, 2, 1]);
    assert_eq!(get_fixed32(5, &buf[1..]).unwrap().0, 0x0102_0304);
    assert!(get_fixed64(1, &[0; 7]).is_err());
    assert!(get_fixed32(5, &[0; 3]).is_err());
}

#[test]
fn values_of_the_wrong_type() {
    assert!(get_integer(1, &[0; 9]).is_err());
    assert!(get_fixed64(5, &[0; 9]).is_err());
    assert!(get_fixed32(1, &[0; 9]).is_err());
    assert!(get_bytes(0, &[0; 9]).is_err());
    assert!(get_string(3, &[0; 9]).is_err());
    assert!(get_integers(5, &[0; 9]).is_err());
}

#[test]
fn values_with_a_length() {
    assert_eq!(get_delimited(b"\x02abc").unwrap(), (&b"ab"[..], &b"c"[..]));
    assert_eq!(get_bytes(2, b"\x00").unwrap(), (&b""[..], &b""[..]));
    assert!(get_delimited(b"\x04abc").is_err());
    assert!(get_delimited(&varint(u64::MAX)).is_err());
}

#[test]
fn strings_are_utf8() {
    let mut buf = Vec::new();
    put_string_field(&mut buf, 1, "\u{e4}b");
    assert_eq!(buf, vec![0x0a, 3, 0xc3, 0xa4, b'b']);
    let (s, rest) = get_string(2, &buf[1..]).unwrap();
    assert_eq!(s, "\u{e4}b");
    assert!(rest.is_empty());
    for bytes in [&[1, 0xff][..], &[2, 0xc3, 0x28], &[3, 0xed, 0xa0, 0x80], &[2, b'a']] {
        assert!(matches!(get_string(2, bytes), Err(HdfsError::InvalidRPCResponse)));
    }
}

#[test]
fn integers_in_one_field() {
    assert_eq!(get_integers(2, &[3, 1, 0x96, 0x01, 7]).unwrap(), (vec![1, 150], &[7u8][..]));
    assert_eq!(get_integers(2, &[0, 7]).unwrap(), (vec![], &[7u8][..]));
    assert_eq!(get_integers(0, &[5, 7]).unwrap(), (vec![5], &[7u8][..]));
    assert!(get_integers(2, &[1, 0x96, 0x01]).is_err());
}

#[test]
fn unknown_values_are_passed_over() {
    assert_eq!(pass_field(9, 0, &[0x96, 0x01, 7]).unwrap(), &[7]);
    assert_eq!(pass_field(9, 1, &[0, 0, 0, 0, 0, 0, 0, 0, 7]).unwrap(), &[7]);
    assert_eq!(pass_field(9, 2, &[1, 0, 7]).unwrap(), &[7]);
    assert_eq!(pass_field(9, 5, &[0, 0, 0, 0, 7]).unwrap(), &[7]);
    // A group with an integer, a group and a string in it.
    let group = [0x08, 1, 0x13, 0x14, 0x1a, 1, b'x', 0x4c, 7];
    assert_eq!(pass_field(9, 3, &group).unwrap(), &[7]);
}

#[test]
fn unknown_values_that_are_malformed() {
    assert!(pass_field(9, 0, &[0x96]).is_err());
    assert!(pass_field(9, 1, &[0; 7]).is_err());
    assert!(pass_field(9, 2, &[2, 0]).is_err());
    assert!(pass_field(9, 4, &[]).is_err());
    assert!(pass_field(9, 5, &[0; 3]).is_err());
    assert!(matches!(pass_field(9, 3, &[0x08, 1]), Err(HdfsError::InvalidRPCResponse)));
    assert!(pass_field(9, 3, &[0x54]).is_err());
}
