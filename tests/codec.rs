use bytes::{Bytes, BytesMut};
use snmp_agent::asn1::decode::{
    decode_integer, decode_length, decode_null, decode_octet_string, decode_oid, decode_sequence,
    decode_tag, peek_tag,
};
use snmp_agent::asn1::encode::{
    encode_integer, encode_length, encode_null, encode_octet_string, encode_oid, encode_sequence,
};
use snmp_agent::asn1::model::{Asn1Error, SEQUENCE_TAG};

fn int_bytes(v: i32) -> Vec<u8> {
    let mut buf = BytesMut::new();
    encode_integer(v, &mut buf);
    buf.to_vec()
}

fn int_round_trip(v: i32) -> i32 {
    let mut b = Bytes::from(int_bytes(v));
    let r = decode_integer(&mut b).unwrap();
    assert!(b.is_empty());
    r
}

#[test]
fn integer_minimal_encodings() {
    assert_eq!(int_bytes(0), vec![0x02, 0x01, 0x00]);
    assert_eq!(int_bytes(127), vec![0x02, 0x01, 0x7F]);
    assert_eq!(int_bytes(128), vec![0x02, 0x02, 0x00, 0x80]);
    assert_eq!(int_bytes(-128), vec![0x02, 0x01, 0x80]);
    assert_eq!(int_bytes(-129), vec![0x02, 0x02, 0xFF, 0x7F]);
    assert_eq!(int_bytes(i32::MAX), vec![0x02, 0x04, 0x7F, 0xFF, 0xFF, 0xFF]);
    assert_eq!(int_bytes(i32::MIN), vec![0x02, 0x04, 0x80, 0x00, 0x00, 0x00]);
}

#[test]
fn integer_all_lengths_round_trip() {
    for v in [0, 127, 128, -128, -129, 0x7FFF, -0x8000, 0x8000, 0x7F_FFFF, -0x80_0000, 0x80_0000, i32::MAX, i32::MIN, 1, -1] {
        assert_eq!(int_round_trip(v), v);
    }
    assert_eq!(int_bytes(0x7FFF).len(), 4);
    assert_eq!(int_bytes(0x7F_FFFF).len(), 5);
    assert_eq!(int_bytes(0x80_0000).len(), 6);
}

#[test]
fn integer_overlong_accepted() {
    let mut b = Bytes::from(vec![0x02, 0x03, 0x00, 0x00, 0x05]);
    assert_eq!(decode_integer(&mut b), Ok(5));
    let mut b = Bytes::from(vec![0x02, 0x02, 0xFF, 0xFF]);
    assert_eq!(decode_integer(&mut b), Ok(-1));
}

#[test]
fn integer_errors() {
    let mut b = Bytes::from(vec![0x02, 0x05, 1, 2, 3, 4, 5]);
    assert_eq!(decode_integer(&mut b), Err(Asn1Error::InvalidInteger));
    let mut b = Bytes::from(vec![0x02, 0x00]);
    assert_eq!(decode_integer(&mut b), Err(Asn1Error::InvalidInteger));
    let mut b = Bytes::from(vec![0x02, 0x02, 0x01]);
    assert_eq!(decode_integer(&mut b), Err(Asn1Error::Truncated));
    let mut b = Bytes::from(vec![0x04, 0x01, 0x01]);
    assert_eq!(decode_integer(&mut b), Err(Asn1Error::UnexpectedTag(0x02, 0x04)));
}

#[test]
fn length_round_trip_sizes() {
    let expected: Vec<(usize, Vec<u8>)> = vec![
        (0, vec![0x00]),
        (1, vec![0x01]),
        (127, vec![0x7F]),
        (128, vec![0x81, 0x80]),
        (255, vec![0x81, 0xFF]),
        (256, vec![0x82, 0x01, 0x00]),
        (65535, vec![0x82, 0xFF, 0xFF]),
        (65536, vec![0x83, 0x01, 0x00, 0x00]),
    ];
    for (n, bytes) in expected {
        let mut buf = BytesMut::new();
        encode_length(n, &mut buf);
        assert_eq!(buf.to_vec(), bytes);
        let mut b = Bytes::from(bytes);
        assert_eq!(decode_length(&mut b), Ok(n));
        assert!(b.is_empty());
    }
}

#[test]
fn length_four_bytes_and_rejections() {
    let mut buf = BytesMut::new();
    encode_length(0xFFFF_FFFF, &mut buf);
    assert_eq!(buf.to_vec(), vec![0x84, 0xFF, 0xFF, 0xFF, 0xFF]);
    let mut b = Bytes::from(vec![0x85, 1, 2, 3, 4, 5]);
    assert_eq!(decode_length(&mut b), Err(Asn1Error::InvalidLength));
    let mut b = Bytes::from(vec![0x80]);
    assert_eq!(decode_length(&mut b), Err(Asn1Error::InvalidLength));
    let mut b = Bytes::from(vec![0x82, 0x01]);
    assert_eq!(decode_length(&mut b), Err(Asn1Error::Truncated));
    let mut b = Bytes::new();
    assert_eq!(decode_length(&mut b), Err(Asn1Error::Truncated));
}

#[test]
fn null_encoding_and_rejection() {
    let mut buf = BytesMut::new();
    encode_null(&mut buf);
    assert_eq!(buf.to_vec(), vec![0x05, 0x00]);
    let mut b = Bytes::from(vec![0x05, 0x00, 0x09]);
    assert_eq!(decode_null(&mut b), Ok(()));
    assert_eq!(b.to_vec(), vec![0x09]);
    let mut b = Bytes::from(vec![0x05, 0x01, 0x00]);
    assert_eq!(decode_null(&mut b), Err(Asn1Error::InvalidNull));
}

#[test]
fn octet_string_round_trip() {
    let data = b"Rust SNMP Agent v1.0".to_vec();
    let mut buf = BytesMut::new();
    encode_octet_string(&data, &mut buf).unwrap();
    let bytes = buf.to_vec();
    assert_eq!(bytes[0], 0x04);
    assert_eq!(bytes[1], 20);
    let mut b = Bytes::from(bytes);
    assert_eq!(decode_octet_string(&mut b), Ok(data));
    let long = vec![0xAB; 300];
    let mut buf = BytesMut::new();
    encode_octet_string(&long, &mut buf).unwrap();
    assert_eq!(&buf[..4], &[0x04, 0x82, 0x01, 0x2C]);
    let mut b = buf.freeze();
    assert_eq!(decode_octet_string(&mut b), Ok(long));
    let mut b = Bytes::from(vec![0x04, 0x03, 0x61]);
    assert_eq!(decode_octet_string(&mut b), Err(Asn1Error::Truncated));
}

#[test]
fn oid_sys_descr_bytes() {
    let mut buf = BytesMut::new();
    encode_oid(&[1, 3, 6, 1, 2, 1, 1, 1, 0], &mut buf).unwrap();
    assert_eq!(buf.to_vec(), vec![0x06, 0x08, 0x2B, 0x06, 0x01, 0x02, 0x01, 0x01, 0x01, 0x00]);
}

#[test]
fn oid_multi_byte_round_trip() {
    let oids: Vec<Vec<u32>> = vec![
        vec![1, 3, 6, 1, 4, 1, 311, 21, 20],
        vec![1, 3, 6, 1, 2, 1, 1, 1, 0],
        vec![0, 0],
        vec![0, 39, 127, 128, 16383, 16384],
        vec![2, 999, 3],
        vec![2, u32::MAX - 80, u32::MAX],
        vec![1, 39, u32::MAX],
    ];
    for oid in oids {
        let mut buf = BytesMut::new();
        encode_oid(&oid, &mut buf).unwrap();
        let mut b = buf.freeze();
        assert_eq!(decode_oid(&mut b), Ok(oid.clone()));
        assert!(b.is_empty());
    }
    let mut buf = BytesMut::new();
    encode_oid(&[1, 3, 6, 1, 4, 1, 311], &mut buf).unwrap();
    assert_eq!(buf.to_vec(), vec![0x06, 0x07, 0x2B, 0x06, 0x01, 0x04, 0x01, 0x82, 0x37]);
    let mut buf = BytesMut::new();
    encode_oid(&[2, 999], &mut buf).unwrap();
    assert_eq!(buf.to_vec(), vec![0x06, 0x02, 0x88, 0x37]);
}

#[test]
fn oid_rejections() {
    let mut b = Bytes::from(vec![0x06, 0x00]);
    assert_eq!(decode_oid(&mut b), Err(Asn1Error::InvalidOid));
    let mut b = Bytes::from(vec![0x06, 0x02, 0x2B, 0x86]);
    assert_eq!(decode_oid(&mut b), Err(Asn1Error::Truncated));
    let mut b = Bytes::from(vec![0x06, 0x01, 0x86]);
    assert_eq!(decode_oid(&mut b), Err(Asn1Error::Truncated));
    let mut b = Bytes::from(vec![0x06, 0x03, 0x2B, 0x81, 0x80]);
    assert_eq!(decode_oid(&mut b), Err(Asn1Error::Truncated));
    let mut b = Bytes::from(vec![0x06, 0x07, 0x2B, 0x90, 0x80, 0x80, 0x80, 0x00, 0x00]);
    assert_eq!(decode_oid(&mut b), Err(Asn1Error::InvalidOid));
    let mut b = Bytes::from(vec![0x06, 0x05, 0x2B]);
    assert_eq!(decode_oid(&mut b), Err(Asn1Error::Truncated));
    let mut b = Bytes::from(vec![0x02, 0x01, 0x00]);
    assert_eq!(decode_oid(&mut b), Err(Asn1Error::UnexpectedTag(0x06, 0x02)));
}

#[test]
fn sequence_and_tags() {
    let mut buf = BytesMut::new();
    encode_sequence(&[0x05, 0x00], SEQUENCE_TAG, &mut buf).unwrap();
    assert_eq!(buf.to_vec(), vec![0x30, 0x02, 0x05, 0x00]);
    let mut b = Bytes::from(vec![0x30, 0x02, 0x05, 0x00, 0x07]);
    assert_eq!(peek_tag(&b), Ok(0x30));
    let inner = decode_sequence(&mut b).unwrap();
    assert_eq!(inner.to_vec(), vec![0x05, 0x00]);
    assert_eq!(b.to_vec(), vec![0x07]);
    for tag in [0xA0u8, 0xA1, 0xA2, 0xA3] {
        let mut b = Bytes::from(vec![tag, 0x00]);
        assert!(decode_sequence(&mut b).is_ok());
    }
    let mut b = Bytes::from(vec![0x33, 0x00]);
    assert_eq!(decode_sequence(&mut b), Err(Asn1Error::UnexpectedTag(0x30, 0x33)));
    let mut b = Bytes::new();
    assert_eq!(decode_tag(&mut b), Err(Asn1Error::Truncated));
    assert_eq!(peek_tag(&b), Err(Asn1Error::Truncated));
}
