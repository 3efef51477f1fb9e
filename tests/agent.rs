use bytes::BytesMut;
use snmp_agent::agent::SnmpAgent;
use snmp_agent::snmp::{
    build_pdu, build_snmp_msg, build_varbind_list, decode_snmp_message, PduType, SnmpMessage,
    SnmpValue, Varbind,
};

const SYS_DESCR: [u32; 9] = [1, 3, 6, 1, 2, 1, 1, 1, 0];
const SYS_UPTIME: [u32; 9] = [1, 3, 6, 1, 2, 1, 1, 3, 0];
const SYS_CONTACT: [u32; 9] = [1, 3, 6, 1, 2, 1, 1, 4, 0];
const SYS_NAME: [u32; 9] = [1, 3, 6, 1, 2, 1, 1, 5, 0];

fn vb(oid: &[u32], value: SnmpValue) -> Varbind {
    Varbind { oid: oid.to_vec(), value }
}

fn request(kind: PduType, community: &[u8], request_id: i32, varbinds: &[Varbind]) -> Vec<u8> {
    let mut list = BytesMut::new();
    build_varbind_list(varbinds, &mut list).unwrap();
    let mut pdu = BytesMut::new();
    build_pdu(request_id, 0, 0, &list, kind, &mut pdu).unwrap();
    let mut msg = BytesMut::new();
    build_snmp_msg(community, &pdu, &mut msg).unwrap();
    msg.to_vec()
}

fn agent() -> SnmpAgent {
    SnmpAgent::new(vec![b"public".to_vec()])
}

fn ask(a: &mut SnmpAgent, kind: PduType, request_id: i32, varbinds: &[Varbind]) -> SnmpMessage {
    let data = request(kind, b"public", request_id, varbinds);
    let response = a.process_message(&data).expect("a response");
    let m = decode_snmp_message(&response).unwrap();
    assert_eq!(m.pdu.pdu_type, PduType::GET_RESPONSE);
    assert_eq!(m.pdu.request_id, request_id);
    assert_eq!(m.community, b"public".to_vec());
    assert_eq!(m.version, 0);
    m
}

#[test]
fn seed_and_get() {
    let mut a = agent();
    a.register_oid(SYS_DESCR.to_vec(), SnmpValue::OctetString(b"Rust SNMP Agent v1.0".to_vec()));
    let m = ask(&mut a, PduType::GET_REQUEST, 1, &[vb(&SYS_DESCR, SnmpValue::Null)]);
    assert_eq!(
        m.pdu.varbinds,
        vec![vb(&SYS_DESCR, SnmpValue::OctetString(b"Rust SNMP Agent v1.0".to_vec()))]
    );
    assert_eq!(m.pdu.error_status, 0);
    assert_eq!(m.pdu.error_index, 0);
}

#[test]
fn missing_oid() {
    let mut a = agent();
    let m = ask(&mut a, PduType::GET_REQUEST, 2, &[vb(&SYS_NAME, SnmpValue::Null)]);
    assert_eq!(m.pdu.varbinds, vec![vb(&SYS_NAME, SnmpValue::Null)]);
    assert_eq!(m.pdu.error_status, 2);
    assert_eq!(m.pdu.error_index, 1);
}

#[test]
fn get_keeps_order_and_first_miss() {
    let mut a = agent();
    a.register_oid(SYS_DESCR.to_vec(), SnmpValue::Integer(10));
    a.register_oid(SYS_UPTIME.to_vec(), SnmpValue::Integer(30));
    let m = ask(
        &mut a,
        PduType::GET_REQUEST,
        3,
        &[
            vb(&SYS_UPTIME, SnmpValue::Null),
            vb(&SYS_NAME, SnmpValue::Null),
            vb(&SYS_DESCR, SnmpValue::Null),
            vb(&SYS_CONTACT, SnmpValue::Null),
        ],
    );
    assert_eq!(
        m.pdu.varbinds,
        vec![
            vb(&SYS_UPTIME, SnmpValue::Integer(30)),
            vb(&SYS_NAME, SnmpValue::Null),
            vb(&SYS_DESCR, SnmpValue::Integer(10)),
            vb(&SYS_CONTACT, SnmpValue::Null),
        ]
    );
    assert_eq!(m.pdu.error_status, 2);
    assert_eq!(m.pdu.error_index, 2);
}

#[test]
fn get_registered_many() {
    let mut a = agent();
    a.register_oid(SYS_DESCR.to_vec(), SnmpValue::Integer(10));
    a.register_oid(SYS_UPTIME.to_vec(), SnmpValue::ObjectIdentifier(vec![1, 3, 6]));
    let m = ask(
        &mut a,
        PduType::GET_REQUEST,
        4,
        &[vb(&SYS_UPTIME, SnmpValue::Null), vb(&SYS_DESCR, SnmpValue::Null)],
    );
    assert_eq!(
        m.pdu.varbinds,
        vec![
            vb(&SYS_UPTIME, SnmpValue::ObjectIdentifier(vec![1, 3, 6])),
            vb(&SYS_DESCR, SnmpValue::Integer(10)),
        ]
    );
    assert_eq!(m.pdu.error_status, 0);
    assert_eq!(m.pdu.error_index, 0);
}

#[test]
fn register_overwrites() {
    let mut a = agent();
    a.register_oid(SYS_DESCR.to_vec(), SnmpValue::Integer(1));
    a.register_oid(SYS_DESCR.to_vec(), SnmpValue::Integer(2));
    let m = ask(&mut a, PduType::GET_REQUEST, 5, &[vb(&SYS_DESCR, SnmpValue::Null)]);
    assert_eq!(m.pdu.varbinds, vec![vb(&SYS_DESCR, SnmpValue::Integer(2))]);
}

fn two_entry_agent() -> SnmpAgent {
    let mut a = agent();
    a.register_oid(SYS_DESCR.to_vec(), SnmpValue::Integer(1));
    a.register_oid(SYS_UPTIME.to_vec(), SnmpValue::Integer(3));
    a
}

#[test]
fn get_next_traversal() {
    let mut a = two_entry_agent();
    let m = ask(&mut a, PduType::GET_NEXT_REQUEST, 6, &[vb(&SYS_DESCR, SnmpValue::Null)]);
    assert_eq!(m.pdu.varbinds, vec![vb(&SYS_UPTIME, SnmpValue::Integer(3))]);
    assert_eq!(m.pdu.error_status, 0);
    assert_eq!(m.pdu.error_index, 0);
}

#[test]
fn get_next_end_of_mib() {
    let mut a = two_entry_agent();
    let m = ask(&mut a, PduType::GET_NEXT_REQUEST, 7, &[vb(&SYS_UPTIME, SnmpValue::Null)]);
    assert_eq!(m.pdu.varbinds, vec![vb(&SYS_UPTIME, SnmpValue::Null)]);
    assert_eq!(m.pdu.error_status, 2);
    assert_eq!(m.pdu.error_index, 1);
}

#[test]
fn get_next_below_minimum() {
    let mut a = two_entry_agent();
    for q in [vec![1, 3], vec![0, 0], vec![1, 3, 6, 1, 2, 1, 1], vec![1, 3, 6, 1, 2, 1, 1, 0, 99]] {
        let m = ask(&mut a, PduType::GET_NEXT_REQUEST, 8, &[vb(&q, SnmpValue::Null)]);
        assert_eq!(m.pdu.varbinds, vec![vb(&SYS_DESCR, SnmpValue::Integer(1))]);
        assert_eq!(m.pdu.error_status, 0);
    }
}

#[test]
fn get_next_between_and_first_miss() {
    let mut a = two_entry_agent();
    let m = ask(
        &mut a,
        PduType::GET_NEXT_REQUEST,
        9,
        &[
            vb(&[1, 3, 6, 1, 2, 1, 1, 2], SnmpValue::Null),
            vb(&[2, 0], SnmpValue::Null),
            vb(&SYS_UPTIME, SnmpValue::Null),
        ],
    );
    assert_eq!(
        m.pdu.varbinds,
        vec![
            vb(&SYS_UPTIME, SnmpValue::Integer(3)),
            vb(&[2, 0], SnmpValue::Null),
            vb(&SYS_UPTIME, SnmpValue::Null),
        ]
    );
    assert_eq!(m.pdu.error_status, 2);
    assert_eq!(m.pdu.error_index, 2);
}

#[test]
fn get_next_on_empty_store() {
    let mut a = agent();
    let m = ask(&mut a, PduType::GET_NEXT_REQUEST, 10, &[vb(&[0, 0], SnmpValue::Null)]);
    assert_eq!(m.pdu.varbinds, vec![vb(&[0, 0], SnmpValue::Null)]);
    assert_eq!(m.pdu.error_status, 2);
    assert_eq!(m.pdu.error_index, 1);
}

#[test]
fn set_then_get() {
    let mut a = agent();
    let set = [vb(&SYS_CONTACT, SnmpValue::OctetString(b"noc@x".to_vec()))];
    let m = ask(&mut a, PduType::SET_REQUEST, 11, &set);
    assert_eq!(m.pdu.varbinds, set.to_vec());
    assert_eq!(m.pdu.error_status, 0);
    assert_eq!(m.pdu.error_index, 0);
    let m = ask(&mut a, PduType::GET_REQUEST, 12, &[vb(&SYS_CONTACT, SnmpValue::Null)]);
    assert_eq!(m.pdu.varbinds, set.to_vec());
    assert_eq!(m.pdu.error_status, 0);
}

#[test]
fn set_applies_in_order() {
    let mut a = agent();
    let set = [
        vb(&SYS_NAME, SnmpValue::Integer(1)),
        vb(&SYS_DESCR, SnmpValue::Integer(5)),
        vb(&SYS_NAME, SnmpValue::Integer(2)),
    ];
    let m = ask(&mut a, PduType::SET_REQUEST, 13, &set);
    assert_eq!(m.pdu.varbinds, set.to_vec());
    let m = ask(
        &mut a,
        PduType::GET_REQUEST,
        14,
        &[vb(&SYS_NAME, SnmpValue::Null), vb(&SYS_DESCR, SnmpValue::Null)],
    );
    assert_eq!(
        m.pdu.varbinds,
        vec![vb(&SYS_NAME, SnmpValue::Integer(2)), vb(&SYS_DESCR, SnmpValue::Integer(5))]
    );
}

#[test]
fn bad_community() {
    let mut a = agent();
    a.register_oid(SYS_DESCR.to_vec(), SnmpValue::Integer(1));
    for kind in [PduType::GET_REQUEST, PduType::GET_NEXT_REQUEST, PduType::SET_REQUEST] {
        let data = request(kind, b"private", 15, &[vb(&SYS_DESCR, SnmpValue::Integer(9))]);
        assert!(a.process_message(&data).is_none());
    }
    let m = ask(&mut a, PduType::GET_REQUEST, 16, &[vb(&SYS_DESCR, SnmpValue::Null)]);
    assert_eq!(m.pdu.varbinds, vec![vb(&SYS_DESCR, SnmpValue::Integer(1))]);
    assert!(a.accepts(b"public"));
    assert!(!a.accepts(b"private"));
}

#[test]
fn malformed_and_response_pdus_get_no_answer() {
    let mut a = agent();
    assert!(a.process_message(&[0x30, 0x03, 0x02]).is_none());
    assert!(a.process_message(&[]).is_none());
    let data = request(PduType::GET_RESPONSE, b"public", 17, &[vb(&SYS_DESCR, SnmpValue::Null)]);
    assert!(a.process_message(&data).is_none());
}
