//! Decoders: each reads one item from the front of a `Bytes` cursor and
//! leaves the cursor after it.
use crate::asn1::model::{
    be_value, parse_integer, parse_length, parse_null, parse_octet_string,
    parse_oid, parse_oid_content, parse_sequence, parse_subids, pow256, signed_value, split_first,
    take_subid, oid_valid, Asn1Error, GET_NEXT_REQUEST_TAG, GET_REQUEST_TAG, GET_RESPONSE_TAG, INTEGER_TAG,
    NULL_TAG, OBJECT_IDENTIFIER_TAG, OCTET_STRING_TAG, SEQUENCE_TAG, SET_REQUEST_TAG, SUBID_LIMIT,
};
use crate::buf::{bytes_view, first_byte, get_u8, remaining, split_to, take_vec};
use bytes::Bytes;
use vstd::prelude::*;

verus! {

/// The next tag, without consuming it.
pub fn peek_tag(buf: &Bytes) -> (r: Result<u8, Asn1Error>)
    ensures
        bytes_view(*buf).len() > 0 ==> r == Ok::<u8, Asn1Error>(bytes_view(*buf)[0]),
        bytes_view(*buf).len() == 0 ==> r == Err::<u8, Asn1Error>(Asn1Error::Truncated),
{
    if remaining(buf) < 1 {
        return Err(Asn1Error::Truncated);
    }
    Ok(first_byte(buf))
}

/// Reads the next tag.
pub fn decode_tag(buf: &mut Bytes) -> (r: Result<u8, Asn1Error>)
    ensures
        bytes_view(*old(buf)).len() > 0 ==> r == Ok::<u8, Asn1Error>(bytes_view(*old(buf))[0])
            && bytes_view(*final(buf)) == bytes_view(*old(buf)).drop_first(),
        bytes_view(*old(buf)).len() == 0 ==> r == Err::<u8, Asn1Error>(Asn1Error::Truncated),
{
    if remaining(buf) < 1 {
        return Err(Asn1Error::Truncated);
    }
    Ok(get_u8(buf))
}

/// Reads `k` bytes as an unsigned big-endian number.
fn read_be(buf: &mut Bytes, k: usize) -> (r: u64)
    requires
        k <= 4,
        k <= bytes_view(*old(buf)).len(),
    ensures
        r == be_value(bytes_view(*old(buf)).take(k as int)),
        r < pow256(k as nat),
        bytes_view(*final(buf)) == bytes_view(*old(buf)).skip(k as int),
{
    let ghost s = bytes_view(*buf);
    let mut acc: u64 = 0;
    let mut i: usize = 0;
    assert(s.take(0) =~= Seq::<u8>::empty());
    assert(s.skip(0) =~= s);
    while i < k
        invariant
            i <= k <= 4,
            k <= s.len(),
            s == bytes_view(*old(buf)),
            acc == be_value(s.take(i as int)),
            acc < pow256(i as nat),
            bytes_view(*buf) == s.skip(i as int),
        decreases k - i,
    {
        let b = get_u8(buf);
        let ghost p = pow256(i as nat);
        proof {
            reveal_with_fuel(pow256, 5);
            assert(p <= 0x1_0000_0000);
            assert(acc * 256 + b < 256 * p) by (nonlinear_arith)
                requires
                    acc < p,
                    b < 256,
            ;
            assert(s.take(i + 1).drop_last() =~= s.take(i as int));
            assert(s.skip(i as int).drop_first() =~= s.skip(i + 1));
        }
        acc = acc * 256 + b as u64;
        i += 1;
    }
    acc
}

/// Reads a definite-form length: one byte below 0x80, else `0x80 | k`
/// followed by `k` big-endian bytes, `k` from one to four.
pub fn decode_length(buf: &mut Bytes) -> (r: Result<usize, Asn1Error>)
    ensures
        match r {
            Ok(n) => parse_length(bytes_view(*old(buf))) == Ok::<(nat, Seq<u8>), Asn1Error>(
                (n as nat, bytes_view(*final(buf))),
            ),
            Err(e) => parse_length(bytes_view(*old(buf))) == Err::<(nat, Seq<u8>), Asn1Error>(e),
        },
{
    let ghost s = bytes_view(*buf);
    if remaining(buf) < 1 {
        return Err(Asn1Error::Truncated);
    }
    let first = get_u8(buf);
    if first < 0x80 {
        return Ok(first as usize);
    }
    let k = first - 0x80;
    if k == 0 || k > 4 {
        return Err(Asn1Error::InvalidLength);
    }
    if remaining(buf) < k as usize {
        return Err(Asn1Error::Truncated);
    }
    let n = read_be(buf, k as usize);
    proof {
        reveal_with_fuel(pow256, 5);
        assert(s.drop_first().take(k as int) =~= s.subrange(1, 1 + k));
        assert(s.drop_first().skip(k as int) =~= s.skip(1 + k));
    }
    Ok(n as usize)
}

/// Reads a container: a SEQUENCE or one of the four PDU tags, and hands out
/// its content.
pub fn decode_sequence(buf: &mut Bytes) -> (r: Result<Bytes, Asn1Error>)
    ensures
        match r {
            Ok(c) => parse_sequence(bytes_view(*old(buf))) == Ok::<(Seq<u8>, Seq<u8>), Asn1Error>(
                (bytes_view(c), bytes_view(*final(buf))),
            ),
            Err(e) => parse_sequence(bytes_view(*old(buf))) == Err::<(Seq<u8>, Seq<u8>), Asn1Error>(
                e,
            ),
        },
{
    let tag = decode_tag(buf)?;
    if tag != SEQUENCE_TAG && tag != GET_REQUEST_TAG && tag != GET_NEXT_REQUEST_TAG && tag
        != GET_RESPONSE_TAG && tag != SET_REQUEST_TAG {
        return Err(Asn1Error::UnexpectedTag(SEQUENCE_TAG, tag));
    }
    let length = decode_length(buf)?;
    if remaining(buf) < length {
        return Err(Asn1Error::Truncated);
    }
    Ok(split_to(buf, length))
}

/// Reads an INTEGER of one to four content bytes, sign-extended from the
/// high bit of the first.
pub fn decode_integer(buf: &mut Bytes) -> (r: Result<i32, Asn1Error>)
    ensures
        match r {
            Ok(v) => parse_integer(bytes_view(*old(buf))) == Ok::<(i32, Seq<u8>), Asn1Error>(
                (v, bytes_view(*final(buf))),
            ),
            Err(e) => parse_integer(bytes_view(*old(buf))) == Err::<(i32, Seq<u8>), Asn1Error>(e),
        },
{
    let tag = decode_tag(buf)?;
    if tag != INTEGER_TAG {
        return Err(Asn1Error::UnexpectedTag(INTEGER_TAG, tag));
    }
    let length = decode_length(buf)?;
    if length == 0 || length > 4 {
        return Err(Asn1Error::InvalidInteger);
    }
    if remaining(buf) < length {
        return Err(Asn1Error::Truncated);
    }
    let ghost content = bytes_view(*buf).take(length as int);
    let u = read_be(buf, length);
    let pow: u64 = if length == 1 {
        0x100
    } else if length == 2 {
        0x1_0000
    } else if length == 3 {
        0x100_0000
    } else {
        0x1_0000_0000
    };
    proof {
        reveal_with_fuel(pow256, 5);
        assert(pow == pow256(content.len()));
    }
    let value: i64 = if u * 2 >= pow {
        u as i64 - pow as i64
    } else {
        u as i64
    };
    assert(value == signed_value(content));
    Ok(value as i32)
}

/// Reads an OCTET STRING and returns its bytes.
pub fn decode_octet_string(buf: &mut Bytes) -> (r: Result<Vec<u8>, Asn1Error>)
    ensures
        match r {
            Ok(v) => parse_octet_string(bytes_view(*old(buf))) == Ok::<
                (Seq<u8>, Seq<u8>),
                Asn1Error,
            >((v@, bytes_view(*final(buf)))),
            Err(e) => parse_octet_string(bytes_view(*old(buf))) == Err::<
                (Seq<u8>, Seq<u8>),
                Asn1Error,
            >(e),
        },
{
    let tag = decode_tag(buf)?;
    if tag != OCTET_STRING_TAG {
        return Err(Asn1Error::UnexpectedTag(OCTET_STRING_TAG, tag));
    }
    let length = decode_length(buf)?;
    if remaining(buf) < length {
        return Err(Asn1Error::Truncated);
    }
    Ok(take_vec(buf, length))
}

/// Reads a NULL, whose length must be zero.
pub fn decode_null(buf: &mut Bytes) -> (r: Result<(), Asn1Error>)
    ensures
        match r {
            Ok(_) => parse_null(bytes_view(*old(buf))) == Ok::<Seq<u8>, Asn1Error>(
                bytes_view(*final(buf)),
            ),
            Err(e) => parse_null(bytes_view(*old(buf))) == Err::<Seq<u8>, Asn1Error>(e),
        },
{
    let tag = decode_tag(buf)?;
    if tag != NULL_TAG {
        return Err(Asn1Error::UnexpectedTag(NULL_TAG, tag));
    }
    let length = decode_length(buf)?;
    if length != 0 {
        return Err(Asn1Error::InvalidNull);
    }
    Ok(())
}

pub proof fn lemma_take_subid_shrinks(s: Seq<u8>, acc: nat)
    ensures
        take_subid(s, acc) matches Ok((_, rest)) ==> rest.len() < s.len(),
    decreases s.len(),
{
    if s.len() > 0 {
        lemma_take_subid_shrinks(s.drop_first(), acc * 128 + (s[0] % 128) as nat);
    }
}

/// Reads one base-128 sub-identifier.
fn read_subid(buf: &mut Bytes) -> (r: Result<u64, Asn1Error>)
    ensures
        match r {
            Ok(v) => v <= SUBID_LIMIT && take_subid(bytes_view(*old(buf)), 0) == Ok::<
                (nat, Seq<u8>),
                Asn1Error,
            >((v as nat, bytes_view(*final(buf)))),
            Err(e) => take_subid(bytes_view(*old(buf)), 0) == Err::<(nat, Seq<u8>), Asn1Error>(e),
        },
{
    let mut acc: u64 = 0;
    loop
        invariant
            acc <= SUBID_LIMIT,
            take_subid(bytes_view(*old(buf)), 0) == take_subid(bytes_view(*buf), acc as nat),
        decreases bytes_view(*buf).len(),
    {
        if remaining(buf) == 0 {
            return Err(Asn1Error::Truncated);
        }
        let b = get_u8(buf);
        let a = acc * 128 + (b % 128) as u64;
        if a > SUBID_LIMIT {
            return Err(Asn1Error::InvalidOid);
        }
        if b < 128 {
            return Ok(a);
        }
        acc = a;
    }
}

/// Reads an OBJECT IDENTIFIER: the first sub-identifier stands for the first
/// two components, each further one for one component. Empty content, or a
/// sub-identifier out of range, is `InvalidOid`; content that ends inside a
/// sub-identifier is `Truncated`.
pub fn decode_oid(buf: &mut Bytes) -> (r: Result<Vec<u32>, Asn1Error>)
    ensures
        match r {
            Ok(o) => parse_oid(bytes_view(*old(buf))) == Ok::<(Seq<u32>, Seq<u8>), Asn1Error>(
                (o@, bytes_view(*final(buf))),
            ) && oid_valid(o@),
            Err(e) => parse_oid(bytes_view(*old(buf))) == Err::<(Seq<u32>, Seq<u8>), Asn1Error>(e),
        },
{
    let tag = decode_tag(buf)?;
    if tag != OBJECT_IDENTIFIER_TAG {
        return Err(Asn1Error::UnexpectedTag(OBJECT_IDENTIFIER_TAG, tag));
    }
    let length = decode_length(buf)?;
    if remaining(buf) < length {
        return Err(Asn1Error::Truncated);
    }
    let mut oid_bytes = split_to(buf, length);
    let ghost c = bytes_view(oid_bytes);
    if length == 0 {
        return Err(Asn1Error::InvalidOid);
    }
    let first = read_subid(&mut oid_bytes)?;
    let mut result: Vec<u32> = Vec::new();
    if first < 40 {
        result.push(0);
        result.push(first as u32);
    } else if first < 80 {
        result.push(1);
        result.push((first - 40) as u32);
    } else {
        result.push(2);
        result.push((first - 80) as u32);
    }
    assert(result@ =~= split_first(first as nat));
    assert(parse_oid(bytes_view(*old(buf))) == match parse_oid_content(c) {
        Err(e) => Err(e),
        Ok(o) => Ok::<(Seq<u32>, Seq<u8>), Asn1Error>((o, bytes_view(*buf))),
    });
    while remaining(&oid_bytes) > 0
        invariant
            oid_valid(result@),
            parse_oid(bytes_view(*old(buf))) == match parse_oid_content(c) {
                Err(e) => Err(e),
                Ok(o) => Ok::<(Seq<u32>, Seq<u8>), Asn1Error>((o, bytes_view(*buf))),
            },
            parse_oid_content(c) == match parse_subids(bytes_view(oid_bytes)) {
                Err(e) => Err(e),
                Ok(t) => Ok::<Seq<u32>, Asn1Error>(result@ + t),
            },
        decreases bytes_view(oid_bytes).len(),
    {
        let ghost s = bytes_view(oid_bytes);
        proof {
            lemma_take_subid_shrinks(s, 0);
        }
        let v = read_subid(&mut oid_bytes)?;
        if v > 0xFFFF_FFFF {
            return Err(Asn1Error::InvalidOid);
        }
        let ghost prev = result@;
        result.push(v as u32);
        proof {
            if let Ok(t) = parse_subids(bytes_view(oid_bytes)) {
                assert(prev + (seq![v as u32] + t) =~= result@ + t);
            }
        }
    }
    assert(parse_subids(bytes_view(oid_bytes)) == Ok::<Seq<u32>, Asn1Error>(Seq::<u32>::empty()));
    assert(result@ + Seq::<u32>::empty() =~= result@);
    Ok(result)
}

} // verus!
