//! Decoding an encoded value or message gives it back.
use crate::asn1::model::{
    enc_integer, enc_octet_string, enc_oid, enc_tlv, is_container_tag, oid_content,
    parse_integer, parse_octet_string, parse_sequence, Asn1Error, MAX_LENGTH, SEQUENCE_TAG,
};
use crate::asn1::round_trip::{
    lemma_integer_round_trip, lemma_null_round_trip, lemma_octet_string_round_trip,
    lemma_oid_round_trip, lemma_tlv_round_trip,
};
use crate::snmp::{
    enc_message, enc_pdu, enc_value, enc_varbind, enc_varbind_list, enc_varbinds,
    message_content, message_wf, parse_message, parse_pdu,
    parse_value, parse_varbind, parse_varbind_list, parse_varbinds, pdu_content, pdu_kind, pdu_tag,
    value_fits, value_valid, varbind_content, varbind_valid, varbinds_valid, MessageModel,
    PduModel, SnmpError, ValueModel, VarbindModel,
};
use vstd::prelude::*;

verus! {

/// A container read back gives its content.
pub proof fn lemma_sequence_round_trip(tag: u8, c: Seq<u8>, rest: Seq<u8>)
    requires
        is_container_tag(tag),
        c.len() <= MAX_LENGTH,
    ensures
        parse_sequence(enc_tlv(tag, c) + rest) == Ok::<(Seq<u8>, Seq<u8>), Asn1Error>((c, rest)),
{
    lemma_tlv_round_trip(tag, c, rest);
}

/// Every value that the encoders accept decodes to itself.
pub proof fn lemma_value_round_trip(v: ValueModel, rest: Seq<u8>)
    requires
        value_valid(v),
        value_fits(v),
    ensures
        parse_value(enc_value(v) + rest) == Ok::<(ValueModel, Seq<u8>), SnmpError>((v, rest)),
{
    match v {
        ValueModel::Integer(i) => lemma_integer_round_trip(i, rest),
        ValueModel::OctetString(s) => lemma_octet_string_round_trip(s, rest),
        ValueModel::Null => lemma_null_round_trip(rest),
        ValueModel::ObjectIdentifier(o) => lemma_oid_round_trip(o, rest),
    }
}

pub proof fn lemma_varbind_round_trip(b: VarbindModel, rest: Seq<u8>)
    requires
        varbind_valid(b),
        varbind_content(b).len() <= MAX_LENGTH,
    ensures
        parse_varbind(enc_varbind(b) + rest) == Ok::<(VarbindModel, Seq<u8>), SnmpError>(
            (b, rest),
        ),
{
    let c = varbind_content(b);
    lemma_sequence_round_trip(SEQUENCE_TAG, c, rest);
    assert(oid_content(b.oid).len() <= enc_oid(b.oid).len());
    lemma_oid_round_trip(b.oid, enc_value(b.value));
    lemma_value_round_trip(b.value, Seq::empty());
    assert(enc_value(b.value) + Seq::<u8>::empty() =~= enc_value(b.value));
}

proof fn lemma_enc_varbinds_front(s: Seq<VarbindModel>)
    requires
        s.len() > 0,
    ensures
        enc_varbinds(s) == enc_varbind(s[0]) + enc_varbinds(s.drop_first()),
    decreases s.len(),
{
    if s.len() == 1 {
        assert(s.drop_last() =~= Seq::<VarbindModel>::empty());
        assert(s.drop_first() =~= Seq::<VarbindModel>::empty());
        assert(enc_varbinds(s) =~= enc_varbind(s[0]) + enc_varbinds(s.drop_first()));
    } else {
        lemma_enc_varbinds_front(s.drop_last());
        assert(s.drop_last().drop_first() =~= s.drop_first().drop_last());
        assert(enc_varbinds(s) =~= enc_varbind(s[0]) + enc_varbinds(s.drop_first()));
    }
}

proof fn lemma_parse_varbinds_step(s: Seq<u8>, b: VarbindModel, rest: Seq<u8>, t: Seq<VarbindModel>)
    requires
        s.len() > 0,
        parse_varbind(s) == Ok::<(VarbindModel, Seq<u8>), SnmpError>((b, rest)),
        rest.len() < s.len(),
        parse_varbinds(rest) == Ok::<Seq<VarbindModel>, SnmpError>(t),
    ensures
        parse_varbinds(s) == Ok::<Seq<VarbindModel>, SnmpError>(seq![b] + t),
{
}

proof fn lemma_varbinds_round_trip(s: Seq<VarbindModel>)
    requires
        varbinds_valid(s),
        enc_varbinds(s).len() <= MAX_LENGTH,
    ensures
        parse_varbinds(enc_varbinds(s)) == Ok::<Seq<VarbindModel>, SnmpError>(s),
    decreases s.len(),
{
    if s.len() == 0 {
        assert(s =~= Seq::<VarbindModel>::empty());
    } else {
        lemma_enc_varbinds_front(s);
        let tail = enc_varbinds(s.drop_first());
        assert(varbind_valid(s[0]));
        assert(enc_varbinds(s).len() == enc_varbind(s[0]).len() + tail.len());
        assert(varbind_content(s[0]).len() <= enc_varbind(s[0]).len());
        lemma_varbind_round_trip(s[0], tail);
        assert(enc_varbind(s[0]).len() > 0);
        assert(varbinds_valid(s.drop_first())) by {
            assert forall|i: int| 0 <= i < s.drop_first().len() implies #[trigger] varbind_valid(
                s.drop_first()[i],
            ) by {
                assert(varbind_valid(s[i + 1]));
            }
        }
        lemma_varbinds_round_trip(s.drop_first());
        assert(seq![s[0]] + s.drop_first() =~= s);
        lemma_parse_varbinds_step(enc_varbinds(s), s[0], tail, s.drop_first());
    }
}

proof fn lemma_parse_pdu_steps(
    s: Seq<u8>,
    p: PduModel,
    c: Seq<u8>,
    c1: Seq<u8>,
    c2: Seq<u8>,
    c3: Seq<u8>,
    rest: Seq<u8>,
)
    requires
        s.len() > 0,
        pdu_kind(s[0]) == Some(p.pdu_type),
        parse_sequence(s) == Ok::<(Seq<u8>, Seq<u8>), Asn1Error>((c, rest)),
        parse_integer(c) == Ok::<(i32, Seq<u8>), Asn1Error>((p.request_id, c1)),
        parse_integer(c1) == Ok::<(i32, Seq<u8>), Asn1Error>((p.error_status, c2)),
        parse_integer(c2) == Ok::<(i32, Seq<u8>), Asn1Error>((p.error_index, c3)),
        parse_varbind_list(c3) == Ok::<(Seq<VarbindModel>, Seq<u8>), SnmpError>(
            (p.varbinds, Seq::empty()),
        ),
    ensures
        parse_pdu(s) == Ok::<(PduModel, Seq<u8>), SnmpError>((p, rest)),
{
}

proof fn lemma_parse_message_steps(
    s: Seq<u8>,
    m: MessageModel,
    c: Seq<u8>,
    c1: Seq<u8>,
    c2: Seq<u8>,
)
    requires
        m.version == 0,
        parse_sequence(s) == Ok::<(Seq<u8>, Seq<u8>), Asn1Error>((c, Seq::empty())),
        parse_integer(c) == Ok::<(i32, Seq<u8>), Asn1Error>((m.version, c1)),
        parse_octet_string(c1) == Ok::<(Seq<u8>, Seq<u8>), Asn1Error>((m.community, c2)),
        parse_pdu(c2) == Ok::<(PduModel, Seq<u8>), SnmpError>((m.pdu, Seq::empty())),
    ensures
        parse_message(s) == Ok::<MessageModel, SnmpError>(m),
{
}

/// Every PDU whose varbinds are valid and whose content fits decodes to itself.
pub proof fn lemma_pdu_round_trip(p: PduModel, rest: Seq<u8>)
    requires
        varbinds_valid(p.varbinds),
        pdu_content(p.request_id, p.error_status, p.error_index, enc_varbind_list(p.varbinds)).len()
            <= MAX_LENGTH,
    ensures
        parse_pdu(enc_pdu(p) + rest) == Ok::<(PduModel, Seq<u8>), SnmpError>((p, rest)),
{
    let list = enc_varbind_list(p.varbinds);
    let c = pdu_content(p.request_id, p.error_status, p.error_index, list);
    let tag = pdu_tag(p.pdu_type);
    assert(pdu_kind(tag) == Some(p.pdu_type));
    lemma_sequence_round_trip(tag, c, rest);
    let c1 = enc_integer(p.error_status) + enc_integer(p.error_index) + list;
    let c2 = enc_integer(p.error_index) + list;
    assert(c =~= enc_integer(p.request_id) + c1);
    assert(c1 =~= enc_integer(p.error_status) + c2);
    lemma_integer_round_trip(p.request_id, c1);
    lemma_integer_round_trip(p.error_status, c2);
    lemma_integer_round_trip(p.error_index, list);
    lemma_sequence_round_trip(SEQUENCE_TAG, enc_varbinds(p.varbinds), Seq::empty());
    assert(list + Seq::<u8>::empty() =~= list);
    lemma_varbinds_round_trip(p.varbinds);
    assert(parse_varbind_list(list) == Ok::<(Seq<VarbindModel>, Seq<u8>), SnmpError>(
        (p.varbinds, Seq::empty()),
    ));
    let s = enc_pdu(p) + rest;
    assert(s[0] == tag);
    assert(parse_sequence(s) == Ok::<(Seq<u8>, Seq<u8>), Asn1Error>((c, rest)));
    assert(parse_integer(c) == Ok::<(i32, Seq<u8>), Asn1Error>((p.request_id, c1)));
    assert(parse_integer(c1) == Ok::<(i32, Seq<u8>), Asn1Error>((p.error_status, c2)));
    assert(parse_integer(c2) == Ok::<(i32, Seq<u8>), Asn1Error>((p.error_index, list)));
    lemma_parse_pdu_steps(s, p, c, c1, c2, list, rest);
}

/// Every well-formed message decodes to itself: `decode(encode(m)) == m`.
pub proof fn lemma_message_round_trip(m: MessageModel)
    requires
        message_wf(m),
    ensures
        parse_message(enc_message(m)) == Ok::<MessageModel, SnmpError>(m),
{
    let pdu = enc_pdu(m.pdu);
    let c = message_content(m.version, m.community, pdu);
    let c1 = enc_octet_string(m.community) + pdu;
    lemma_sequence_round_trip(SEQUENCE_TAG, c, Seq::empty());
    assert(enc_message(m) + Seq::<u8>::empty() =~= enc_message(m));
    assert(c =~= enc_integer(m.version) + c1);
    lemma_integer_round_trip(m.version, c1);
    lemma_octet_string_round_trip(m.community, pdu);
    lemma_pdu_round_trip(m.pdu, Seq::empty());
    assert(pdu + Seq::<u8>::empty() =~= pdu);
    assert(parse_sequence(enc_message(m)) == Ok::<(Seq<u8>, Seq<u8>), Asn1Error>(
        (c, Seq::empty()),
    ));
    assert(parse_integer(c) == Ok::<(i32, Seq<u8>), Asn1Error>((m.version, c1)));
    assert(parse_octet_string(c1) == Ok::<(Seq<u8>, Seq<u8>), Asn1Error>((m.community, pdu)));
    assert(parse_pdu(pdu) == Ok::<(PduModel, Seq<u8>), SnmpError>((m.pdu, Seq::empty())));
    lemma_parse_message_steps(enc_message(m), m, c, c1, pdu);
}

} // verus!
