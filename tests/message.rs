use bytes::BytesMut;
use snmp_agent::asn1::model::Asn1Error;
use snmp_agent::snmp::{
    build_pdu, build_response_message, build_snmp_msg, build_varbind, build_varbind_list,
    decode_snmp_message, PduType, SnmpError, SnmpMessage, SnmpPdu, SnmpValue, Varbind,
};

fn vb(oid: &[u32], value: SnmpValue) -> Varbind {
    Varbind { oid: oid.to_vec(), value }
}

fn message_bytes(kind: PduType, community: &[u8], request_id: i32, varbinds: &[Varbind]) -> Vec<u8> {
    let mut list = BytesMut::new();
    build_varbind_list(varbinds, &mut list).unwrap();
    let mut pdu = BytesMut::new();
    build_pdu(request_id, 0, 0, &list, kind, &mut pdu).unwrap();
    let mut msg = BytesMut::new();
    build_snmp_msg(community, &pdu, &mut msg).unwrap();
    msg.to_vec()
}

#[test]
fn pdu_tags() {
    assert_eq!(PduType::GET_REQUEST.to_tag(), 0xA0);
    assert_eq!(PduType::GET_NEXT_REQUEST.to_tag(), 0xA1);
    assert_eq!(PduType::GET_RESPONSE.to_tag(), 0xA2);
    assert_eq!(PduType::SET_REQUEST.to_tag(), 0xA3);
}

#[test]
fn varbind_bytes() {
    let mut buf = BytesMut::new();
    build_varbind(&[1, 3, 6, 1, 2, 1, 1, 1, 0], &SnmpValue::Null, &mut buf).unwrap();
    assert_eq!(
        buf.to_vec(),
        vec![0x30, 0x0C, 0x06, 0x08, 0x2B, 0x06, 0x01, 0x02, 0x01, 0x01, 0x01, 0x00, 0x05, 0x00]
    );
}

#[test]
fn get_request_bytes() {
    let bytes = message_bytes(
        PduType::GET_REQUEST,
        b"public",
        1,
        &[vb(&[1, 3, 6, 1, 2, 1, 1, 1, 0], SnmpValue::Null)],
    );
    let expected: Vec<u8> = vec![
        0x30, 0x26, 0x02, 0x01, 0x00, 0x04, 0x06, b'p', b'u', b'b', b'l', b'i', b'c', 0xA0, 0x19,
        0x02, 0x01, 0x01, 0x02, 0x01, 0x00, 0x02, 0x01, 0x00, 0x30, 0x0E, 0x30, 0x0C, 0x06, 0x08,
        0x2B, 0x06, 0x01, 0x02, 0x01, 0x01, 0x01, 0x00, 0x05, 0x00,
    ];
    assert_eq!(bytes, expected);
}

#[test]
fn message_round_trip_all_value_types() {
    let varbinds = vec![
        vb(&[1, 3, 6, 1, 2, 1, 1, 3, 0], SnmpValue::Integer(-129)),
        vb(&[1, 3, 6, 1, 2, 1, 1, 1, 0], SnmpValue::OctetString(b"Rust SNMP Agent v1.0".to_vec())),
        vb(&[1, 3, 6, 1, 2, 1, 1, 5, 0], SnmpValue::Null),
        vb(&[1, 3, 6, 1, 2, 1, 1, 2, 0], SnmpValue::ObjectIdentifier(vec![1, 3, 6, 1, 4, 1, 311])),
        vb(&[2, 100, 70000], SnmpValue::Integer(i32::MIN)),
    ];
    for kind in [PduType::GET_REQUEST, PduType::GET_NEXT_REQUEST, PduType::SET_REQUEST, PduType::GET_RESPONSE] {
        let bytes = message_bytes(kind, b"public", 77, &varbinds);
        let m = decode_snmp_message(&bytes).unwrap();
        assert_eq!(m.version, 0);
        assert_eq!(m.community, b"public".to_vec());
        assert_eq!(m.pdu.pdu_type, kind);
        assert_eq!(m.pdu.request_id, 77);
        assert_eq!(m.pdu.error_status, 0);
        assert_eq!(m.pdu.error_index, 0);
        assert_eq!(m.pdu.varbinds, varbinds);
    }
}

#[test]
fn response_message_round_trip() {
    let request = SnmpMessage {
        version: 0,
        community: b"public".to_vec(),
        pdu: SnmpPdu {
            pdu_type: PduType::GET_REQUEST,
            request_id: 4242,
            error_status: 0,
            error_index: 0,
            varbinds: vec![],
        },
    };
    let answer = vec![vb(&[1, 3, 6, 1, 2, 1, 1, 5, 0], SnmpValue::Null)];
    let mut buf = BytesMut::new();
    build_response_message(&request, answer.clone(), 2, 1, &mut buf).unwrap();
    let m = decode_snmp_message(&buf).unwrap();
    assert_eq!(m.pdu.pdu_type, PduType::GET_RESPONSE);
    assert_eq!(m.pdu.request_id, 4242);
    assert_eq!(m.pdu.error_status, 2);
    assert_eq!(m.pdu.error_index, 1);
    assert_eq!(m.pdu.varbinds, answer);
    assert_eq!(m.community, b"public".to_vec());
}

#[test]
fn empty_varbind_list_round_trip() {
    let bytes = message_bytes(PduType::GET_REQUEST, b"", 0, &[]);
    let m = decode_snmp_message(&bytes).unwrap();
    assert!(m.pdu.varbinds.is_empty());
    assert!(m.community.is_empty());
}

#[test]
fn unsupported_version_rejected() {
    let mut bytes = message_bytes(PduType::GET_REQUEST, b"public", 1, &[]);
    assert_eq!(&bytes[2..5], &[0x02, 0x01, 0x00]);
    bytes[4] = 0x01;
    assert!(matches!(decode_snmp_message(&bytes), Err(SnmpError::UnsupportedVersion)));
}

#[test]
fn invalid_pdu_tag_rejected() {
    let mut bytes = message_bytes(PduType::GET_REQUEST, b"public", 1, &[]);
    assert_eq!(bytes[13], 0xA0);
    bytes[13] = 0xA4;
    assert!(matches!(decode_snmp_message(&bytes), Err(SnmpError::InvalidPdu)));
    bytes[13] = 0x30;
    assert!(matches!(decode_snmp_message(&bytes), Err(SnmpError::InvalidPdu)));
}

#[test]
fn invalid_varbind_value_rejected() {
    let mut bytes = message_bytes(
        PduType::GET_REQUEST,
        b"public",
        1,
        &[vb(&[1, 3, 6, 1, 2, 1, 1, 1, 0], SnmpValue::Null)],
    );
    let n = bytes.len();
    assert_eq!(bytes[n - 2], 0x05);
    bytes[n - 2] = 0x41;
    assert!(matches!(decode_snmp_message(&bytes), Err(SnmpError::InvalidVarbind)));
}

#[test]
fn malformed_message_errors() {
    assert!(matches!(decode_snmp_message(&[]), Err(SnmpError::Asn1(Asn1Error::Truncated))));
    assert!(matches!(
        decode_snmp_message(&[0x02, 0x01, 0x00]),
        Err(SnmpError::Asn1(Asn1Error::UnexpectedTag(0x30, 0x02)))
    ));
    let bytes = message_bytes(PduType::GET_REQUEST, b"public", 1, &[]);
    assert!(matches!(
        decode_snmp_message(&bytes[..bytes.len() - 1]),
        Err(SnmpError::Asn1(Asn1Error::Truncated))
    ));
}
