//! The SNMPv1 message layer: messages, PDUs and variable bindings on top of
//! the BER codec.
//!
//! ```text
//! Message = SEQUENCE { version INTEGER, community OCTET STRING, pdu [kind] }
//! PDU     = [kind] { request_id INTEGER, error_status INTEGER,
//!                    error_index INTEGER, varbinds SEQUENCE { Varbind* } }
//! Varbind = SEQUENCE { oid OBJECT IDENTIFIER, value ANY }
//! ```
use crate::asn1::decode::{
    decode_integer, decode_null, decode_octet_string, decode_oid, decode_sequence, peek_tag,
};
use crate::asn1::encode::{encode_integer, encode_null, encode_octet_string, encode_oid, encode_sequence};
use crate::asn1::model::{
    enc_integer, enc_null, enc_octet_string, enc_oid, enc_tlv, oid_content, oid_valid,
    parse_integer, parse_null, parse_octet_string, parse_oid, parse_sequence, Asn1Error,
    GET_NEXT_REQUEST_TAG, GET_REQUEST_TAG, GET_RESPONSE_TAG, INTEGER_TAG, MAX_LENGTH, NULL_TAG,
    OBJECT_IDENTIFIER_TAG, OCTET_STRING_TAG, SEQUENCE_TAG, SET_REQUEST_TAG,
};
use crate::buf::{buf_slice, bytes_from_slice, bytes_mut_view, bytes_view, new_buf, put_slice, remaining};
use bytes::{Bytes, BytesMut};
use vstd::prelude::*;

verus! {

/// The version number of SNMPv1 on the wire.
pub const SNMP_VERSION_1: u8 = 0x00;

/// The operation that a PDU carries.
#[allow(non_camel_case_types)]
#[derive(Debug, Clone, Copy, PartialEq, Eq, Structural)]
pub enum PduType {
    GET_REQUEST,
    GET_RESPONSE,
    GET_NEXT_REQUEST,
    SET_REQUEST,
}

/// The context-specific constructed tag of a PDU kind.
pub open spec fn pdu_tag(k: PduType) -> u8 {
    match k {
        PduType::GET_REQUEST => GET_REQUEST_TAG,
        PduType::GET_RESPONSE => GET_RESPONSE_TAG,
        PduType::GET_NEXT_REQUEST => GET_NEXT_REQUEST_TAG,
        PduType::SET_REQUEST => SET_REQUEST_TAG,
    }
}

/// The PDU kind that a tag names, if any.
pub open spec fn pdu_kind(t: u8) -> Option<PduType> {
    if t == GET_REQUEST_TAG {
        Some(PduType::GET_REQUEST)
    } else if t == GET_NEXT_REQUEST_TAG {
        Some(PduType::GET_NEXT_REQUEST)
    } else if t == GET_RESPONSE_TAG {
        Some(PduType::GET_RESPONSE)
    } else if t == SET_REQUEST_TAG {
        Some(PduType::SET_REQUEST)
    } else {
        None
    }
}

impl PduType {
    pub fn to_tag(&self) -> (r: u8)
        ensures
            r == pdu_tag(*self),
    {
        match self {
            PduType::GET_REQUEST => GET_REQUEST_TAG,
            PduType::GET_RESPONSE => GET_RESPONSE_TAG,
            PduType::GET_NEXT_REQUEST => GET_NEXT_REQUEST_TAG,
            PduType::SET_REQUEST => SET_REQUEST_TAG,
        }
    }
}

/// Errors of the message layer.
#[derive(Debug, Clone, Copy, PartialEq, Eq, Structural)]
pub enum SnmpError {
    /// The BER layer refused the bytes.
    Asn1(Asn1Error),
    /// A version other than SNMPv1's.
    UnsupportedVersion,
    /// A PDU whose tag names none of the four kinds.
    InvalidPdu,
    /// A varbind whose value has a tag of none of the four value types.
    InvalidVarbind,
}

/// A value that a varbind carries.
#[derive(Debug, Clone, PartialEq, Eq)]
pub enum SnmpValue {
    Integer(i32),
    OctetString(Vec<u8>),
    Null,
    ObjectIdentifier(Vec<u32>),
}

/// The model of an `SnmpValue`.
pub enum ValueModel {
    Integer(i32),
    OctetString(Seq<u8>),
    Null,
    ObjectIdentifier(Seq<u32>),
}

impl View for SnmpValue {
    type V = ValueModel;

    open spec fn view(&self) -> ValueModel {
        match self {
            SnmpValue::Integer(i) => ValueModel::Integer(*i),
            SnmpValue::OctetString(s) => ValueModel::OctetString(s@),
            SnmpValue::Null => ValueModel::Null,
            SnmpValue::ObjectIdentifier(o) => ValueModel::ObjectIdentifier(o@),
        }
    }
}

impl SnmpValue {
    /// A copy of the value.
    pub fn duplicate(&self) -> (r: SnmpValue)
        ensures
            r@ == self@,
    {
        match self {
            SnmpValue::Integer(i) => SnmpValue::Integer(*i),
            SnmpValue::OctetString(s) => SnmpValue::OctetString(s.clone()),
            SnmpValue::Null => SnmpValue::Null,
            SnmpValue::ObjectIdentifier(o) => SnmpValue::ObjectIdentifier(o.clone()),
        }
    }
}

/// Whether `oid` is a valid OID: at least two components, the first in
/// {0, 1, 2}, the second below 40 unless the first is 2.
pub fn is_valid_oid(oid: &[u32]) -> (r: bool)
    ensures
        r == oid_valid(oid@),
{
    oid.len() >= 2 && oid[0] <= 2 && (oid[0] == 2 || oid[1] <= 39)
}

/// Whether `value` is valid: an OID value must be a valid OID.
pub fn is_valid_value(value: &SnmpValue) -> (r: bool)
    ensures
        r == value_valid(value@),
{
    match value {
        SnmpValue::ObjectIdentifier(o) => is_valid_oid(o.as_slice()),
        _ => true,
    }
}

/// A variable binding: an OID and the value bound to it.
#[derive(Debug, Clone, PartialEq, Eq)]
pub struct Varbind {
    pub oid: Vec<u32>,
    pub value: SnmpValue,
}

pub struct VarbindModel {
    pub oid: Seq<u32>,
    pub value: ValueModel,
}

impl View for Varbind {
    type V = VarbindModel;

    open spec fn view(&self) -> VarbindModel {
        VarbindModel { oid: self.oid@, value: self.value@ }
    }
}

pub open spec fn varbinds_view(v: Seq<Varbind>) -> Seq<VarbindModel> {
    v.map_values(|b: Varbind| b@)
}

#[derive(Debug)]
pub struct SnmpPdu {
    pub pdu_type: PduType,
    pub request_id: i32,
    pub error_status: i32,
    pub error_index: i32,
    pub varbinds: Vec<Varbind>,
}

pub struct PduModel {
    pub pdu_type: PduType,
    pub request_id: i32,
    pub error_status: i32,
    pub error_index: i32,
    pub varbinds: Seq<VarbindModel>,
}

impl View for SnmpPdu {
    type V = PduModel;

    open spec fn view(&self) -> PduModel {
        PduModel {
            pdu_type: self.pdu_type,
            request_id: self.request_id,
            error_status: self.error_status,
            error_index: self.error_index,
            varbinds: varbinds_view(self.varbinds@),
        }
    }
}

#[derive(Debug)]
pub struct SnmpMessage {
    pub version: i32,
    pub community: Vec<u8>,
    pub pdu: SnmpPdu,
}

pub struct MessageModel {
    pub version: i32,
    pub community: Seq<u8>,
    pub pdu: PduModel,
}

impl View for SnmpMessage {
    type V = MessageModel;

    open spec fn view(&self) -> MessageModel {
        MessageModel { version: self.version, community: self.community@, pdu: self.pdu@ }
    }
}

// ---- what the encoders emit ----

pub open spec fn enc_value(v: ValueModel) -> Seq<u8> {
    match v {
        ValueModel::Integer(i) => enc_integer(i),
        ValueModel::OctetString(s) => enc_octet_string(s),
        ValueModel::Null => enc_null(),
        ValueModel::ObjectIdentifier(o) => enc_oid(o),
    }
}

/// OID values must be OIDs.
pub open spec fn value_valid(v: ValueModel) -> bool {
    v matches ValueModel::ObjectIdentifier(o) ==> oid_valid(o)
}

pub open spec fn varbind_valid(b: VarbindModel) -> bool {
    oid_valid(b.oid) && value_valid(b.value)
}

pub open spec fn varbinds_valid(s: Seq<VarbindModel>) -> bool {
    forall|i: int| 0 <= i < s.len() ==> #[trigger] varbind_valid(s[i])
}

pub open spec fn varbind_content(b: VarbindModel) -> Seq<u8> {
    enc_oid(b.oid) + enc_value(b.value)
}

pub open spec fn enc_varbind(b: VarbindModel) -> Seq<u8> {
    enc_tlv(SEQUENCE_TAG, varbind_content(b))
}

/// The varbinds one after the other.
pub open spec fn enc_varbinds(s: Seq<VarbindModel>) -> Seq<u8>
    decreases s.len(),
{
    if s.len() == 0 {
        Seq::empty()
    } else {
        enc_varbinds(s.drop_last()) + enc_varbind(s.last())
    }
}

pub open spec fn enc_varbind_list(s: Seq<VarbindModel>) -> Seq<u8> {
    enc_tlv(SEQUENCE_TAG, enc_varbinds(s))
}

pub open spec fn pdu_content(rid: i32, status: i32, index: i32, list: Seq<u8>) -> Seq<u8> {
    enc_integer(rid) + enc_integer(status) + enc_integer(index) + list
}

pub open spec fn enc_pdu(p: PduModel) -> Seq<u8> {
    enc_tlv(
        pdu_tag(p.pdu_type),
        pdu_content(p.request_id, p.error_status, p.error_index, enc_varbind_list(p.varbinds)),
    )
}

pub open spec fn message_content(version: i32, community: Seq<u8>, pdu: Seq<u8>) -> Seq<u8> {
    enc_integer(version) + enc_octet_string(community) + pdu
}

pub open spec fn enc_message(m: MessageModel) -> Seq<u8> {
    enc_tlv(SEQUENCE_TAG, message_content(m.version, m.community, enc_pdu(m.pdu)))
}

/// A message that the encoders can write and the decoders accept: SNMPv1,
/// every OID valid, and small enough for four-byte length fields.
pub open spec fn message_wf(m: MessageModel) -> bool {
    &&& m.version == 0
    &&& varbinds_valid(m.pdu.varbinds)
    &&& message_content(m.version, m.community, enc_pdu(m.pdu)).len() <= MAX_LENGTH
}

// ---- what the decoders accept ----

pub open spec fn lift<T>(r: Result<T, Asn1Error>) -> Result<T, SnmpError> {
    match r {
        Ok(v) => Ok(v),
        Err(e) => Err(SnmpError::Asn1(e)),
    }
}

/// Reading a value whose type is chosen by its tag.
pub open spec fn parse_value(s: Seq<u8>) -> Result<(ValueModel, Seq<u8>), SnmpError> {
    if s.len() == 0 {
        Err(SnmpError::Asn1(Asn1Error::Truncated))
    } else if s[0] == INTEGER_TAG {
        match parse_integer(s) {
            Ok((i, rest)) => Ok((ValueModel::Integer(i), rest)),
            Err(e) => Err(SnmpError::Asn1(e)),
        }
    } else if s[0] == OCTET_STRING_TAG {
        match parse_octet_string(s) {
            Ok((d, rest)) => Ok((ValueModel::OctetString(d), rest)),
            Err(e) => Err(SnmpError::Asn1(e)),
        }
    } else if s[0] == NULL_TAG {
        match parse_null(s) {
            Ok(rest) => Ok((ValueModel::Null, rest)),
            Err(e) => Err(SnmpError::Asn1(e)),
        }
    } else if s[0] == OBJECT_IDENTIFIER_TAG {
        match parse_oid(s) {
            Ok((o, rest)) => Ok((ValueModel::ObjectIdentifier(o), rest)),
            Err(e) => Err(SnmpError::Asn1(e)),
        }
    } else {
        Err(SnmpError::InvalidVarbind)
    }
}

/// Reading one varbind; bytes after the value inside its SEQUENCE are ignored.
pub open spec fn parse_varbind(s: Seq<u8>) -> Result<(VarbindModel, Seq<u8>), SnmpError> {
    match lift(parse_sequence(s)) {
        Err(e) => Err(e),
        Ok((c, rest)) => match lift(parse_oid(c)) {
            Err(e) => Err(e),
            Ok((oid, c2)) => match parse_value(c2) {
                Err(e) => Err(e),
                Ok((value, _)) => Ok((VarbindModel { oid, value }, rest)),
            },
        },
    }
}

/// Reading varbinds until the bytes end.
pub open spec fn parse_varbinds(s: Seq<u8>) -> Result<Seq<VarbindModel>, SnmpError>
    decreases s.len(),
{
    if s.len() == 0 {
        Ok(Seq::empty())
    } else {
        match parse_varbind(s) {
            Err(e) => Err(e),
            Ok((b, rest)) => if rest.len() >= s.len() {
                Err(SnmpError::InvalidVarbind)
            } else {
                match parse_varbinds(rest) {
                    Err(e) => Err(e),
                    Ok(t) => Ok(seq![b] + t),
                }
            },
        }
    }
}

pub open spec fn parse_varbind_list(s: Seq<u8>) -> Result<(Seq<VarbindModel>, Seq<u8>), SnmpError> {
    match lift(parse_sequence(s)) {
        Err(e) => Err(e),
        Ok((c, rest)) => match parse_varbinds(c) {
            Err(e) => Err(e),
            Ok(t) => Ok((t, rest)),
        },
    }
}

/// Reading a PDU; bytes after its varbind list inside it are ignored.
pub open spec fn parse_pdu(s: Seq<u8>) -> Result<(PduModel, Seq<u8>), SnmpError> {
    if s.len() == 0 {
        Err(SnmpError::Asn1(Asn1Error::Truncated))
    } else {
        match pdu_kind(s[0]) {
            None => Err(SnmpError::InvalidPdu),
            Some(k) => match lift(parse_sequence(s)) {
                Err(e) => Err(e),
                Ok((c, rest)) => match lift(parse_integer(c)) {
                    Err(e) => Err(e),
                    Ok((rid, c1)) => match lift(parse_integer(c1)) {
                        Err(e) => Err(e),
                        Ok((status, c2)) => match lift(parse_integer(c2)) {
                            Err(e) => Err(e),
                            Ok((index, c3)) => match parse_varbind_list(c3) {
                                Err(e) => Err(e),
                                Ok((vbs, _)) => Ok(
                                    (
                                        PduModel {
                                            pdu_type: k,
                                            request_id: rid,
                                            error_status: status,
                                            error_index: index,
                                            varbinds: vbs,
                                        },
                                        rest,
                                    ),
                                ),
                            },
                        },
                    },
                },
            },
        }
    }
}

/// Reading a whole datagram; bytes after the message's PDU are ignored.
pub open spec fn parse_message(s: Seq<u8>) -> Result<MessageModel, SnmpError> {
    match lift(parse_sequence(s)) {
        Err(e) => Err(e),
        Ok((c, _)) => match lift(parse_integer(c)) {
            Err(e) => Err(e),
            Ok((version, c1)) => if version != 0 {
                Err(SnmpError::UnsupportedVersion)
            } else {
                match lift(parse_octet_string(c1)) {
                    Err(e) => Err(e),
                    Ok((community, c2)) => match parse_pdu(c2) {
                        Err(e) => Err(e),
                        Ok((pdu, _)) => Ok(MessageModel { version, community, pdu }),
                    },
                }
            },
        },
    }
}


/// What a value's content must fit for the encoders: four length bytes.
pub open spec fn value_fits(v: ValueModel) -> bool {
    match v {
        ValueModel::OctetString(s) => s.len() <= MAX_LENGTH,
        ValueModel::ObjectIdentifier(o) => oid_content(o).len() <= MAX_LENGTH,
        _ => true,
    }
}

/// The response PDU to `request`: a GetResponse with the request's id.
pub open spec fn response_pdu(
    request: PduModel,
    varbinds: Seq<VarbindModel>,
    status: i32,
    index: i32,
) -> PduModel {
    PduModel {
        pdu_type: PduType::GET_RESPONSE,
        request_id: request.request_id,
        error_status: status,
        error_index: index,
        varbinds,
    }
}

/// The response message to `request`: its version and community, and the
/// response PDU.
pub open spec fn response_message(
    request: MessageModel,
    varbinds: Seq<VarbindModel>,
    status: i32,
    index: i32,
) -> MessageModel {
    MessageModel {
        version: request.version,
        community: request.community,
        pdu: response_pdu(request.pdu, varbinds, status, index),
    }
}

pub proof fn lemma_enc_varbinds_prefix(s: Seq<VarbindModel>, j: int)
    requires
        0 <= j <= s.len(),
    ensures
        enc_varbinds(s.take(j)).len() <= enc_varbinds(s).len(),
    decreases s.len(),
{
    if j == s.len() {
        assert(s.take(j) =~= s);
    } else {
        lemma_enc_varbinds_prefix(s.drop_last(), j);
        assert(s.drop_last().take(j) =~= s.take(j));
    }
}

/// Appends the BER form of a value. A content too long for a four-byte
/// length field is refused, and nothing is written.
pub fn encode_value(value: &SnmpValue, buf: &mut BytesMut) -> (r: Result<(), Asn1Error>)
    requires
        value_valid(value@),
    ensures
        value_fits(value@) ==> r is Ok && bytes_mut_view(*final(buf)) == bytes_mut_view(*old(buf))
            + enc_value(value@),
        !value_fits(value@) ==> r == Err::<(), Asn1Error>(Asn1Error::InvalidLength)
            && bytes_mut_view(*final(buf)) == bytes_mut_view(*old(buf)),
{
    match value {
        SnmpValue::Integer(i) => {
            encode_integer(*i, buf);
            Ok(())
        },
        SnmpValue::OctetString(s) => encode_octet_string(s.as_slice(), buf),
        SnmpValue::Null => {
            encode_null(buf);
            Ok(())
        },
        SnmpValue::ObjectIdentifier(o) => encode_oid(o.as_slice(), buf),
    }
}

/// Appends a varbind: a SEQUENCE of the OID and the value. Refused, with
/// nothing written, when its content is too long for a four-byte length.
pub fn build_varbind(oid: &[u32], value: &SnmpValue, buf: &mut BytesMut) -> (r: Result<
    (),
    Asn1Error,
>)
    requires
        oid_valid(oid@),
        value_valid(value@),
    ensures
        ({
            let b = VarbindModel { oid: oid@, value: value@ };
            &&& varbind_content(b).len() <= MAX_LENGTH ==> r is Ok && bytes_mut_view(*final(buf))
                == bytes_mut_view(*old(buf)) + enc_varbind(b)
            &&& varbind_content(b).len() > MAX_LENGTH ==> r == Err::<(), Asn1Error>(
                Asn1Error::InvalidLength,
            ) && bytes_mut_view(*final(buf)) == bytes_mut_view(*old(buf))
        }),
{
    let mut inner = new_buf();
    encode_oid(oid, &mut inner)?;
    encode_value(value, &mut inner)?;
    encode_sequence(buf_slice(&inner), SEQUENCE_TAG, buf)
}

/// Appends a varbind list: the encoded varbinds, in order, in a SEQUENCE.
/// Refused, with nothing written, when a content is too long for a
/// four-byte length.
pub fn build_varbind_list(varbinds: &[Varbind], buf: &mut BytesMut) -> (r: Result<(), Asn1Error>)
    requires
        varbinds_valid(varbinds_view(varbinds@)),
    ensures
        enc_varbinds(varbinds_view(varbinds@)).len() <= MAX_LENGTH ==> r is Ok && bytes_mut_view(
            *final(buf),
        ) == bytes_mut_view(*old(buf)) + enc_varbind_list(varbinds_view(varbinds@)),
        enc_varbinds(varbinds_view(varbinds@)).len() > MAX_LENGTH ==> r == Err::<(), Asn1Error>(
            Asn1Error::InvalidLength,
        ) && bytes_mut_view(*final(buf)) == bytes_mut_view(*old(buf)),
{
    let ghost vs = varbinds_view(varbinds@);
    let mut inner = new_buf();
    let mut i: usize = 0;
    assert(vs.take(0) =~= Seq::<VarbindModel>::empty());
    while i < varbinds.len()
        invariant
            i <= varbinds.len(),
            vs == varbinds_view(varbinds@),
            varbinds_valid(vs),
            bytes_mut_view(*buf) == bytes_mut_view(*old(buf)),
            bytes_mut_view(inner) == enc_varbinds(vs.take(i as int)),
        decreases varbinds.len() - i,
    {
        assert(vs.take(i + 1).drop_last() =~= vs.take(i as int));
        assert(varbind_valid(vs[i as int]));
        let r = build_varbind(varbinds[i].oid.as_slice(), &varbinds[i].value, &mut inner);
        if r.is_err() {
            proof {
                lemma_enc_varbinds_prefix(vs, i + 1);
            }
            return Err(Asn1Error::InvalidLength);
        }
        i += 1;
    }
    assert(vs.take(varbinds@.len() as int) =~= vs);
    encode_sequence(buf_slice(&inner), SEQUENCE_TAG, buf)
}

/// Appends a PDU: request id, error status and error index as INTEGERs, then
/// the encoded varbind list, under the tag of `pdu_type`. Refused, with
/// nothing written, when its content is too long for a four-byte length.
pub fn build_pdu(
    request_id: i32,
    error_status: i32,
    error_index: i32,
    varbind_list: &[u8],
    pdu_type: PduType,
    buf: &mut BytesMut,
) -> (r: Result<(), Asn1Error>)
    ensures
        ({
            let c = pdu_content(request_id, error_status, error_index, varbind_list@);
            &&& c.len() <= MAX_LENGTH ==> r is Ok && bytes_mut_view(*final(buf)) == bytes_mut_view(
                *old(buf),
            ) + enc_tlv(pdu_tag(pdu_type), c)
            &&& c.len() > MAX_LENGTH ==> r == Err::<(), Asn1Error>(Asn1Error::InvalidLength)
                && bytes_mut_view(*final(buf)) == bytes_mut_view(*old(buf))
        }),
{
    let mut inner = new_buf();
    encode_integer(request_id, &mut inner);
    encode_integer(error_status, &mut inner);
    encode_integer(error_index, &mut inner);
    put_slice(&mut inner, varbind_list);
    encode_sequence(buf_slice(&inner), pdu_type.to_tag(), buf)
}

/// Appends an SNMPv1 message: version 0 and the community, then the encoded
/// PDU, in a SEQUENCE. Refused, with nothing written, when a content is too
/// long for a four-byte length.
pub fn build_snmp_msg(community: &[u8], pdu: &[u8], buf: &mut BytesMut) -> (r: Result<
    (),
    Asn1Error,
>)
    ensures
        ({
            let c = message_content(0, community@, pdu@);
            &&& c.len() <= MAX_LENGTH ==> r is Ok && bytes_mut_view(*final(buf)) == bytes_mut_view(
                *old(buf),
            ) + enc_tlv(SEQUENCE_TAG, c)
            &&& c.len() > MAX_LENGTH ==> r == Err::<(), Asn1Error>(Asn1Error::InvalidLength)
                && bytes_mut_view(*final(buf)) == bytes_mut_view(*old(buf))
        }),
{
    let mut inner = new_buf();
    encode_integer(SNMP_VERSION_1 as i32, &mut inner);
    encode_octet_string(community, &mut inner)?;
    put_slice(&mut inner, pdu);
    encode_sequence(buf_slice(&inner), SEQUENCE_TAG, buf)
}

/// Appends the GetResponse PDU to `request`, with its request id and the
/// given varbinds, status and index. Refused, with nothing written, when a
/// content is too long for a four-byte length.
pub fn build_response_pdu(
    request: &SnmpPdu,
    response_varbinds: Vec<Varbind>,
    error_status: i32,
    error_index: i32,
    buf: &mut BytesMut,
) -> (r: Result<(), Asn1Error>)
    requires
        varbinds_valid(varbinds_view(response_varbinds@)),
    ensures
        ({
            let p = response_pdu(
                request@,
                varbinds_view(response_varbinds@),
                error_status,
                error_index,
            );
            let c = pdu_content(
                p.request_id,
                p.error_status,
                p.error_index,
                enc_varbind_list(p.varbinds),
            );
            &&& c.len() <= MAX_LENGTH ==> r is Ok && bytes_mut_view(*final(buf)) == bytes_mut_view(
                *old(buf),
            ) + enc_pdu(p)
            &&& c.len() > MAX_LENGTH ==> r == Err::<(), Asn1Error>(Asn1Error::InvalidLength)
                && bytes_mut_view(*final(buf)) == bytes_mut_view(*old(buf))
        }),
{
    let mut list = new_buf();
    build_varbind_list(response_varbinds.as_slice(), &mut list)?;
    build_pdu(
        request.request_id,
        error_status,
        error_index,
        buf_slice(&list),
        PduType::GET_RESPONSE,
        buf,
    )
}

/// Appends the response message to `request`: its version and community,
/// and the GetResponse PDU. Refused, with nothing written, when a content is
/// too long for a four-byte length.
pub fn build_response_message(
    request: &SnmpMessage,
    response_varbinds: Vec<Varbind>,
    error_status: i32,
    error_index: i32,
    buf: &mut BytesMut,
) -> (r: Result<(), Asn1Error>)
    requires
        varbinds_valid(varbinds_view(response_varbinds@)),
    ensures
        ({
            let m = response_message(
                request@,
                varbinds_view(response_varbinds@),
                error_status,
                error_index,
            );
            let c = message_content(m.version, m.community, enc_pdu(m.pdu));
            &&& c.len() <= MAX_LENGTH ==> r is Ok && bytes_mut_view(*final(buf)) == bytes_mut_view(
                *old(buf),
            ) + enc_message(m)
            &&& c.len() > MAX_LENGTH ==> r == Err::<(), Asn1Error>(Asn1Error::InvalidLength)
                && bytes_mut_view(*final(buf)) == bytes_mut_view(*old(buf))
        }),
{
    let mut inner = new_buf();
    encode_integer(request.version, &mut inner);
    encode_octet_string(request.community.as_slice(), &mut inner)?;
    build_response_pdu(&request.pdu, response_varbinds, error_status, error_index, &mut inner)?;
    encode_sequence(buf_slice(&inner), SEQUENCE_TAG, buf)
}


/// Reads a varbind: a SEQUENCE holding an OID and a value whose type its tag
/// picks.
#[verifier::rlimit(30)]
pub fn decode_varbind(buf: &mut Bytes) -> (r: Result<Varbind, SnmpError>)
    ensures
        match r {
            Ok(b) => parse_varbind(bytes_view(*old(buf))) == Ok::<
                (VarbindModel, Seq<u8>),
                SnmpError,
            >((b@, bytes_view(*final(buf)))) && varbind_valid(b@),
            Err(e) => parse_varbind(bytes_view(*old(buf))) == Err::<
                (VarbindModel, Seq<u8>),
                SnmpError,
            >(e),
        },
{
    let mut seq_data = match decode_sequence(buf) {
        Ok(c) => c,
        Err(e) => return Err(SnmpError::Asn1(e)),
    };
    let oid = match decode_oid(&mut seq_data) {
        Ok(o) => o,
        Err(e) => return Err(SnmpError::Asn1(e)),
    };
    let tag = match peek_tag(&seq_data) {
        Ok(t) => t,
        Err(e) => return Err(SnmpError::Asn1(e)),
    };
    let value = if tag == INTEGER_TAG {
        match decode_integer(&mut seq_data) {
            Ok(v) => SnmpValue::Integer(v),
            Err(e) => return Err(SnmpError::Asn1(e)),
        }
    } else if tag == OCTET_STRING_TAG {
        match decode_octet_string(&mut seq_data) {
            Ok(v) => SnmpValue::OctetString(v),
            Err(e) => return Err(SnmpError::Asn1(e)),
        }
    } else if tag == NULL_TAG {
        match decode_null(&mut seq_data) {
            Ok(_) => SnmpValue::Null,
            Err(e) => return Err(SnmpError::Asn1(e)),
        }
    } else if tag == OBJECT_IDENTIFIER_TAG {
        match decode_oid(&mut seq_data) {
            Ok(v) => SnmpValue::ObjectIdentifier(v),
            Err(e) => return Err(SnmpError::Asn1(e)),
        }
    } else {
        return Err(SnmpError::InvalidVarbind);
    };
    Ok(Varbind { oid, value })
}

pub proof fn lemma_parse_varbind_shrinks(s: Seq<u8>)
    ensures
        parse_varbind(s) matches Ok((_, rest)) ==> rest.len() < s.len(),
{
}

/// Reads a varbind list: a SEQUENCE of varbinds, read until its content ends.
pub fn decode_varbind_list(buf: &mut Bytes) -> (r: Result<Vec<Varbind>, SnmpError>)
    ensures
        match r {
            Ok(v) => parse_varbind_list(bytes_view(*old(buf))) == Ok::<
                (Seq<VarbindModel>, Seq<u8>),
                SnmpError,
            >((varbinds_view(v@), bytes_view(*final(buf)))) && varbinds_valid(varbinds_view(v@)),
            Err(e) => parse_varbind_list(bytes_view(*old(buf))) == Err::<
                (Seq<VarbindModel>, Seq<u8>),
                SnmpError,
            >(e),
        },
{
    let mut seq_data = match decode_sequence(buf) {
        Ok(c) => c,
        Err(e) => return Err(SnmpError::Asn1(e)),
    };
    let ghost c = bytes_view(seq_data);
    let mut varbinds: Vec<Varbind> = Vec::new();
    assert(varbinds_view(varbinds@) =~= Seq::<VarbindModel>::empty());
    while remaining(&seq_data) > 0
        invariant
            varbinds_valid(varbinds_view(varbinds@)),
            parse_sequence(bytes_view(*old(buf))) == Ok::<(Seq<u8>, Seq<u8>), Asn1Error>(
                (c, bytes_view(*buf)),
            ),
            parse_varbinds(c) == match parse_varbinds(bytes_view(seq_data)) {
                Err(e) => Err(e),
                Ok(t) => Ok::<Seq<VarbindModel>, SnmpError>(varbinds_view(varbinds@) + t),
            },
        decreases bytes_view(seq_data).len(),
    {
        let ghost s = bytes_view(seq_data);
        proof {
            lemma_parse_varbind_shrinks(s);
        }
        let b = decode_varbind(&mut seq_data)?;
        let ghost prev = varbinds_view(varbinds@);
        varbinds.push(b);
        proof {
            assert(varbinds_view(varbinds@) =~= prev.push(b@));
            assert forall|i: int| 0 <= i < varbinds_view(varbinds@).len() implies #[trigger] varbind_valid(
                varbinds_view(varbinds@)[i],
            ) by {
                if i < prev.len() {
                    assert(varbind_valid(prev[i]));
                }
            }
            if let Ok(t) = parse_varbinds(bytes_view(seq_data)) {
                assert(prev + (seq![b@] + t) =~= varbinds_view(varbinds@) + t);
            }
        }
    }
    assert(varbinds_view(varbinds@) + Seq::<VarbindModel>::empty() =~= varbinds_view(varbinds@));
    Ok(varbinds)
}

/// Reads a PDU: its kind from the tag, then request id, error status, error
/// index and the varbind list.
pub fn decode_pdu(buf: &mut Bytes) -> (r: Result<SnmpPdu, SnmpError>)
    ensures
        match r {
            Ok(p) => parse_pdu(bytes_view(*old(buf))) == Ok::<(PduModel, Seq<u8>), SnmpError>(
                (p@, bytes_view(*final(buf))),
            ) && varbinds_valid(p@.varbinds),
            Err(e) => parse_pdu(bytes_view(*old(buf))) == Err::<(PduModel, Seq<u8>), SnmpError>(e),
        },
{
    let tag = match peek_tag(buf) {
        Ok(t) => t,
        Err(e) => return Err(SnmpError::Asn1(e)),
    };
    let pdu_type = if tag == GET_REQUEST_TAG {
        PduType::GET_REQUEST
    } else if tag == GET_NEXT_REQUEST_TAG {
        PduType::GET_NEXT_REQUEST
    } else if tag == GET_RESPONSE_TAG {
        PduType::GET_RESPONSE
    } else if tag == SET_REQUEST_TAG {
        PduType::SET_REQUEST
    } else {
        return Err(SnmpError::InvalidPdu);
    };
    let mut pdu_data = match decode_sequence(buf) {
        Ok(c) => c,
        Err(e) => return Err(SnmpError::Asn1(e)),
    };
    let request_id = match decode_integer(&mut pdu_data) {
        Ok(v) => v,
        Err(e) => return Err(SnmpError::Asn1(e)),
    };
    let error_status = match decode_integer(&mut pdu_data) {
        Ok(v) => v,
        Err(e) => return Err(SnmpError::Asn1(e)),
    };
    let error_index = match decode_integer(&mut pdu_data) {
        Ok(v) => v,
        Err(e) => return Err(SnmpError::Asn1(e)),
    };
    let varbinds = decode_varbind_list(&mut pdu_data)?;
    Ok(SnmpPdu { pdu_type, request_id, error_status, error_index, varbinds })
}

/// Decodes a whole datagram. Only SNMPv1 (version 0) is accepted.
pub fn decode_snmp_message(data: &[u8]) -> (r: Result<SnmpMessage, SnmpError>)
    ensures
        match r {
            Ok(m) => parse_message(data@) == Ok::<MessageModel, SnmpError>(m@) && varbinds_valid(
                m@.pdu.varbinds,
            ),
            Err(e) => parse_message(data@) == Err::<MessageModel, SnmpError>(e),
        },
{
    let mut buf = bytes_from_slice(data);
    let mut msg_data = match decode_sequence(&mut buf) {
        Ok(c) => c,
        Err(e) => return Err(SnmpError::Asn1(e)),
    };
    let version = match decode_integer(&mut msg_data) {
        Ok(v) => v,
        Err(e) => return Err(SnmpError::Asn1(e)),
    };
    if version != SNMP_VERSION_1 as i32 {
        return Err(SnmpError::UnsupportedVersion);
    }
    let community = match decode_octet_string(&mut msg_data) {
        Ok(v) => v,
        Err(e) => return Err(SnmpError::Asn1(e)),
    };
    let pdu = decode_pdu(&mut msg_data)?;
    Ok(SnmpMessage { version, community, pdu })
}

} // verus!
