//! The mathematical model of the encoding: what each encoder emits and what
//! each decoder accepts, stated over byte sequences.
use vstd::prelude::*;

verus! {

/// Tag of an INTEGER.
pub const INTEGER_TAG: u8 = 0x02;
/// Tag of an OCTET STRING.
pub const OCTET_STRING_TAG: u8 = 0x04;
/// Tag of NULL.
pub const NULL_TAG: u8 = 0x05;
/// Tag of an OBJECT IDENTIFIER.
pub const OBJECT_IDENTIFIER_TAG: u8 = 0x06;
/// Tag of a constructed SEQUENCE.
pub const SEQUENCE_TAG: u8 = 0x30;
/// Context-specific constructed tag 0: GetRequest.
pub const GET_REQUEST_TAG: u8 = 0xA0;
/// Context-specific constructed tag 2: GetResponse.
pub const GET_RESPONSE_TAG: u8 = 0xA2;
/// Context-specific constructed tag 1: GetNextRequest.
pub const GET_NEXT_REQUEST_TAG: u8 = 0xA1;
/// Context-specific constructed tag 3: SetRequest.
pub const SET_REQUEST_TAG: u8 = 0xA3;

/// The largest length that the definite form with at most four length bytes
/// can carry.
pub const MAX_LENGTH: u64 = 0xFFFF_FFFF;

/// The largest value that a decoded sub-identifier may take: the first one
/// holds `40 * a + b`, which for `a == 2` reaches `80 + u32::MAX`.
pub const SUBID_LIMIT: u64 = 0x1_0000_004F;

/// Errors of the BER layer.
#[derive(Debug, Clone, Copy, PartialEq, Eq, Structural)]
pub enum Asn1Error {
    /// The input ended before the item did.
    Truncated,
    /// A tag other than the expected one: (expected, found).
    UnexpectedTag(u8, u8),
    /// A length in long form with no length bytes or more than four.
    InvalidLength,
    /// An INTEGER whose content is empty or longer than four bytes.
    InvalidInteger,
    /// A NULL with content.
    InvalidNull,
    /// An OBJECT IDENTIFIER with no content, or with a sub-identifier out of
    /// range. (Content that ends inside a sub-identifier is `Truncated`.)
    InvalidOid,
}

pub open spec fn pow256(k: nat) -> nat
    decreases k,
{
    if k == 0 {
        1
    } else {
        256 * pow256((k - 1) as nat)
    }
}

pub open spec fn pow128(k: nat) -> nat
    decreases k,
{
    if k == 0 {
        1
    } else {
        128 * pow128((k - 1) as nat)
    }
}

/// The number of bytes in the shortest big-endian form of `n` (none for 0).
pub open spec fn be_len(n: nat) -> nat
    decreases n,
{
    if n == 0 {
        0
    } else {
        1 + be_len(n / 256)
    }
}

/// The `k` low-order bytes of `n`, most significant first.
pub open spec fn be_bytes(n: nat, k: nat) -> Seq<u8>
    decreases k,
{
    if k == 0 {
        Seq::empty()
    } else {
        be_bytes(n / 256, (k - 1) as nat).push((n % 256) as u8)
    }
}

/// The unsigned number that bytes spell, most significant first.
pub open spec fn be_value(s: Seq<u8>) -> nat
    decreases s.len(),
{
    if s.len() == 0 {
        0
    } else {
        be_value(s.drop_last()) * 256 + s.last() as nat
    }
}

/// The definite-form length field for `n`.
pub open spec fn enc_length(n: nat) -> Seq<u8> {
    if n <= 127 {
        seq![n as u8]
    } else {
        seq![(0x80 + be_len(n)) as u8] + be_bytes(n, be_len(n))
    }
}

/// Tag, length and content.
pub open spec fn enc_tlv(tag: u8, content: Seq<u8>) -> Seq<u8> {
    seq![tag] + enc_length(content.len()) + content
}

/// The number of content bytes of the minimal two's-complement form of `v`.
pub open spec fn int_len(v: i32) -> nat {
    if -0x80 <= v < 0x80 {
        1
    } else if -0x8000 <= v < 0x8000 {
        2
    } else if -0x80_0000 <= v < 0x80_0000 {
        3
    } else {
        4
    }
}

/// `v` as an unsigned number modulo `256^k`.
pub open spec fn twos(v: int, k: nat) -> nat {
    if v >= 0 {
        v as nat
    } else {
        (v + pow256(k)) as nat
    }
}

/// The content bytes of the INTEGER `v`.
pub open spec fn int_content(v: i32) -> Seq<u8> {
    be_bytes(twos(v as int, int_len(v)), int_len(v))
}

pub open spec fn enc_integer(v: i32) -> Seq<u8> {
    enc_tlv(INTEGER_TAG, int_content(v))
}

pub open spec fn enc_octet_string(data: Seq<u8>) -> Seq<u8> {
    enc_tlv(OCTET_STRING_TAG, data)
}

pub open spec fn enc_null() -> Seq<u8> {
    seq![NULL_TAG, 0u8]
}

/// Base-128 groups of `w > 0`, most significant first, every one with the
/// continuation bit set.
pub open spec fn b128_cont(w: nat) -> Seq<u8>
    decreases w,
{
    if w < 128 {
        seq![(w + 128) as u8]
    } else {
        b128_cont(w / 128).push((w % 128 + 128) as u8)
    }
}

/// The minimal base-128 form of one sub-identifier: every byte but the last
/// has the continuation bit set.
pub open spec fn enc_subid(v: nat) -> Seq<u8> {
    if v < 128 {
        seq![v as u8]
    } else {
        b128_cont(v / 128).push((v % 128) as u8)
    }
}

/// The sub-identifiers after the first two components, one after the other.
pub open spec fn enc_subids(t: Seq<u32>) -> Seq<u8>
    decreases t.len(),
{
    if t.len() == 0 {
        Seq::empty()
    } else {
        enc_subids(t.drop_last()) + enc_subid(t.last() as nat)
    }
}

/// An OID with at least two components, the first in {0, 1, 2}, and the
/// second below 40 unless the first is 2.
pub open spec fn oid_valid(o: Seq<u32>) -> bool {
    &&& o.len() >= 2
    &&& o[0] <= 2
    &&& o[0] < 2 ==> o[1] <= 39
}

/// The content bytes of an OBJECT IDENTIFIER.
pub open spec fn oid_content(o: Seq<u32>) -> Seq<u8> {
    enc_subid((40 * o[0] + o[1]) as nat) + enc_subids(o.skip(2))
}

pub open spec fn enc_oid(o: Seq<u32>) -> Seq<u8> {
    enc_tlv(OBJECT_IDENTIFIER_TAG, oid_content(o))
}

/// The tags that a container may carry.
pub open spec fn is_container_tag(t: u8) -> bool {
    t == SEQUENCE_TAG || t == GET_REQUEST_TAG || t == GET_NEXT_REQUEST_TAG || t
        == GET_RESPONSE_TAG || t == SET_REQUEST_TAG
}

/// Decoding a length field: the length and what follows the field.
pub open spec fn parse_length(s: Seq<u8>) -> Result<(nat, Seq<u8>), Asn1Error> {
    if s.len() == 0 {
        Err(Asn1Error::Truncated)
    } else if s[0] < 0x80 {
        Ok((s[0] as nat, s.drop_first()))
    } else {
        let k = s[0] - 0x80;
        if k == 0 || k > 4 {
            Err(Asn1Error::InvalidLength)
        } else if s.len() < 1 + k {
            Err(Asn1Error::Truncated)
        } else {
            Ok((be_value(s.subrange(1, 1 + k)), s.skip(1 + k)))
        }
    }
}

/// Decoding a tag and length, and taking that many content bytes: the tag,
/// the content and what follows.
pub open spec fn parse_tlv(s: Seq<u8>) -> Result<(u8, Seq<u8>, Seq<u8>), Asn1Error> {
    if s.len() == 0 {
        Err(Asn1Error::Truncated)
    } else {
        match parse_length(s.drop_first()) {
            Err(e) => Err(e),
            Ok((n, rest)) => if rest.len() < n {
                Err(Asn1Error::Truncated)
            } else {
                Ok((s[0], rest.take(n as int), rest.skip(n as int)))
            },
        }
    }
}

/// The number whose two's-complement form, in as many bytes as `b` has, is `b`.
pub open spec fn signed_value(b: Seq<u8>) -> int {
    if be_value(b) * 2 >= pow256(b.len()) {
        be_value(b) - pow256(b.len())
    } else {
        be_value(b) as int
    }
}

pub open spec fn parse_integer(s: Seq<u8>) -> Result<(i32, Seq<u8>), Asn1Error> {
    if s.len() == 0 {
        Err(Asn1Error::Truncated)
    } else if s[0] != INTEGER_TAG {
        Err(Asn1Error::UnexpectedTag(INTEGER_TAG, s[0]))
    } else {
        match parse_length(s.drop_first()) {
            Err(e) => Err(e),
            Ok((n, rest)) => if n == 0 || n > 4 {
                Err(Asn1Error::InvalidInteger)
            } else if rest.len() < n {
                Err(Asn1Error::Truncated)
            } else {
                Ok((signed_value(rest.take(n as int)) as i32, rest.skip(n as int)))
            },
        }
    }
}

pub open spec fn parse_octet_string(s: Seq<u8>) -> Result<(Seq<u8>, Seq<u8>), Asn1Error> {
    if s.len() == 0 {
        Err(Asn1Error::Truncated)
    } else if s[0] != OCTET_STRING_TAG {
        Err(Asn1Error::UnexpectedTag(OCTET_STRING_TAG, s[0]))
    } else {
        match parse_tlv(s) {
            Err(e) => Err(e),
            Ok((_, content, rest)) => Ok((content, rest)),
        }
    }
}

pub open spec fn parse_null(s: Seq<u8>) -> Result<Seq<u8>, Asn1Error> {
    if s.len() == 0 {
        Err(Asn1Error::Truncated)
    } else if s[0] != NULL_TAG {
        Err(Asn1Error::UnexpectedTag(NULL_TAG, s[0]))
    } else {
        match parse_length(s.drop_first()) {
            Err(e) => Err(e),
            Ok((n, rest)) => if n != 0 {
                Err(Asn1Error::InvalidNull)
            } else {
                Ok(rest)
            },
        }
    }
}

/// Decoding a container: any of the container tags, and its content.
pub open spec fn parse_sequence(s: Seq<u8>) -> Result<(Seq<u8>, Seq<u8>), Asn1Error> {
    if s.len() == 0 {
        Err(Asn1Error::Truncated)
    } else if !is_container_tag(s[0]) {
        Err(Asn1Error::UnexpectedTag(SEQUENCE_TAG, s[0]))
    } else {
        match parse_tlv(s) {
            Err(e) => Err(e),
            Ok((_, content, rest)) => Ok((content, rest)),
        }
    }
}

/// Reading one sub-identifier whose groups so far amount to `acc`: its value
/// and what follows; `Truncated` when the bytes end inside it, `InvalidOid`
/// when it exceeds `SUBID_LIMIT`.
pub open spec fn take_subid(s: Seq<u8>, acc: nat) -> Result<(nat, Seq<u8>), Asn1Error>
    decreases s.len(),
{
    if s.len() == 0 {
        Err(Asn1Error::Truncated)
    } else {
        let a = acc * 128 + (s[0] % 128) as nat;
        if a > SUBID_LIMIT {
            Err(Asn1Error::InvalidOid)
        } else if s[0] < 128 {
            Ok((a, s.drop_first()))
        } else {
            take_subid(s.drop_first(), a)
        }
    }
}

/// Reading the sub-identifiers after the first: each must fit in 32 bits.
pub open spec fn parse_subids(s: Seq<u8>) -> Result<Seq<u32>, Asn1Error>
    decreases s.len(),
{
    if s.len() == 0 {
        Ok(Seq::empty())
    } else {
        match take_subid(s, 0) {
            Err(e) => Err(e),
            Ok((v, rest)) => if v > u32::MAX || rest.len() >= s.len() {
                Err(Asn1Error::InvalidOid)
            } else {
                match parse_subids(rest) {
                    Err(e) => Err(e),
                    Ok(t) => Ok(seq![v as u32] + t),
                }
            },
        }
    }
}

/// The first two components that the first sub-identifier stands for.
pub open spec fn split_first(v: nat) -> Seq<u32> {
    if v < 40 {
        seq![0u32, v as u32]
    } else if v < 80 {
        seq![1u32, (v - 40) as u32]
    } else {
        seq![2u32, (v - 80) as u32]
    }
}

/// Decoding the content bytes of an OBJECT IDENTIFIER: empty content is
/// `InvalidOid`.
pub open spec fn parse_oid_content(c: Seq<u8>) -> Result<Seq<u32>, Asn1Error> {
    if c.len() == 0 {
        Err(Asn1Error::InvalidOid)
    } else {
        match take_subid(c, 0) {
            Err(e) => Err(e),
            Ok((v, rest)) => match parse_subids(rest) {
                Err(e) => Err(e),
                Ok(t) => Ok(split_first(v) + t),
            },
        }
    }
}

pub open spec fn parse_oid(s: Seq<u8>) -> Result<(Seq<u32>, Seq<u8>), Asn1Error> {
    if s.len() == 0 {
        Err(Asn1Error::Truncated)
    } else if s[0] != OBJECT_IDENTIFIER_TAG {
        Err(Asn1Error::UnexpectedTag(OBJECT_IDENTIFIER_TAG, s[0]))
    } else {
        match parse_tlv(s) {
            Err(e) => Err(e),
            Ok((_, content, rest)) => match parse_oid_content(content) {
                Err(e) => Err(e),
                Ok(o) => Ok((o, rest)),
            },
        }
    }
}

} // verus!
