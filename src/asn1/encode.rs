//! Encoders: each appends the BER form of one item to a `BytesMut`.
use crate::asn1::model::{
    b128_cont, be_bytes, be_len, enc_integer, enc_length, enc_null, enc_octet_string, enc_oid,
    enc_subid, enc_subids, enc_tlv, int_len, oid_content, oid_valid, pow256, twos,
    Asn1Error, INTEGER_TAG, MAX_LENGTH, NULL_TAG, OBJECT_IDENTIFIER_TAG, OCTET_STRING_TAG,
};
use crate::buf::{buf_slice, bytes_mut_view, new_buf, put_slice, put_u8};
use bytes::BytesMut;
use vstd::prelude::*;

pub use crate::asn1::model::{
    GET_NEXT_REQUEST_TAG, GET_REQUEST_TAG, GET_RESPONSE_TAG, SEQUENCE_TAG, SET_REQUEST_TAG,
};

verus! {

pub proof fn lemma_be_bytes_len(n: nat, k: nat)
    ensures
        be_bytes(n, k).len() == k,
    decreases k,
{
    if k > 0 {
        lemma_be_bytes_len(n / 256, (k - 1) as nat);
    }
}

/// Appends the `k` low-order bytes of `n`, most significant first.
fn put_be(n: u64, k: usize, buf: &mut BytesMut)
    ensures
        bytes_mut_view(*final(buf)) == bytes_mut_view(*old(buf)) + be_bytes(n as nat, k as nat),
    decreases k,
{
    if k > 0 {
        put_be(n / 256, k - 1, buf);
        put_u8(buf, (n % 256) as u8);
    }
    assert(bytes_mut_view(*final(buf)) =~= bytes_mut_view(*old(buf)) + be_bytes(n as nat, k as nat));
}

/// The number of bytes in the shortest big-endian form of `n`.
fn be_len_of(n: u64) -> (r: usize)
    requires
        n <= MAX_LENGTH,
    ensures
        r == be_len(n as nat),
        r <= 4,
{
    reveal_with_fuel(be_len, 5);
    if n == 0 {
        0
    } else if n < 0x100 {
        1
    } else if n < 0x1_0000 {
        2
    } else if n < 0x100_0000 {
        3
    } else {
        4
    }
}

/// Appends the definite-form length field for `len`: one byte up to 127,
/// else `0x80 | k` followed by the `k` big-endian bytes of `len`.
pub fn encode_length(len: usize, buf: &mut BytesMut)
    requires
        len <= MAX_LENGTH,
    ensures
        bytes_mut_view(*final(buf)) == bytes_mut_view(*old(buf)) + enc_length(len as nat),
{
    if len <= 127 {
        put_u8(buf, len as u8);
        assert(bytes_mut_view(*final(buf)) =~= bytes_mut_view(*old(buf)) + enc_length(len as nat));
    } else {
        let k = be_len_of(len as u64);
        put_u8(buf, 0x80u8 | (k as u8));
        assert(0x80u8 | (k as u8) == (0x80 + k) as u8) by (bit_vector)
            requires
                k <= 4,
        ;
        put_be(len as u64, k, buf);
        assert(bytes_mut_view(*final(buf)) =~= bytes_mut_view(*old(buf)) + enc_length(len as nat));
    }
}

/// Appends the INTEGER `value` in the minimal number of two's-complement
/// bytes (one to four).
pub fn encode_integer(value: i32, buf: &mut BytesMut)
    ensures
        bytes_mut_view(*final(buf)) == bytes_mut_view(*old(buf)) + enc_integer(value),
{
    reveal_with_fuel(pow256, 5);
    let (k, pow): (usize, u64) = if -0x80 <= value && value < 0x80 {
        (1, 0x100)
    } else if -0x8000 <= value && value < 0x8000 {
        (2, 0x1_0000)
    } else if -0x80_0000 <= value && value < 0x80_0000 {
        (3, 0x100_0000)
    } else {
        (4, 0x1_0000_0000)
    };
    assert(k == int_len(value) && pow == pow256(k as nat));
    let u: u64 = if value >= 0 {
        value as u64
    } else {
        (pow as i64 + value as i64) as u64
    };
    assert(u == twos(value as int, k as nat));
    proof {
        lemma_be_bytes_len(u as nat, k as nat);
    }
    put_u8(buf, INTEGER_TAG);
    encode_length(k, buf);
    put_be(u, k, buf);
    assert(bytes_mut_view(*final(buf)) =~= bytes_mut_view(*old(buf)) + enc_integer(value));
}

/// Appends an OCTET STRING holding `data`. A content too long for a
/// four-byte length field is refused, and nothing is written.
pub fn encode_octet_string(data: &[u8], buf: &mut BytesMut) -> (r: Result<(), Asn1Error>)
    ensures
        data@.len() <= MAX_LENGTH ==> r is Ok && bytes_mut_view(*final(buf)) == bytes_mut_view(
            *old(buf),
        ) + enc_octet_string(data@),
        data@.len() > MAX_LENGTH ==> r == Err::<(), Asn1Error>(Asn1Error::InvalidLength)
            && bytes_mut_view(*final(buf)) == bytes_mut_view(*old(buf)),
{
    encode_sequence(data, OCTET_STRING_TAG, buf)
}

/// Appends a NULL: its tag and a zero length.
pub fn encode_null(buf: &mut BytesMut)
    ensures
        bytes_mut_view(*final(buf)) == bytes_mut_view(*old(buf)) + enc_null(),
{
    put_u8(buf, NULL_TAG);
    encode_length(0, buf);
    assert(bytes_mut_view(*final(buf)) =~= bytes_mut_view(*old(buf)) + enc_null());
}

/// Appends `tag`, the length of `content` and `content`. A content too long
/// for a four-byte length field is refused, and nothing is written.
pub fn encode_sequence(content: &[u8], tag: u8, buf: &mut BytesMut) -> (r: Result<(), Asn1Error>)
    ensures
        content@.len() <= MAX_LENGTH ==> r is Ok && bytes_mut_view(*final(buf)) == bytes_mut_view(
            *old(buf),
        ) + enc_tlv(tag, content@),
        content@.len() > MAX_LENGTH ==> r == Err::<(), Asn1Error>(Asn1Error::InvalidLength)
            && bytes_mut_view(*final(buf)) == bytes_mut_view(*old(buf)),
{
    if content.len() as u64 > MAX_LENGTH {
        return Err(Asn1Error::InvalidLength);
    }
    put_u8(buf, tag);
    encode_length(content.len(), buf);
    put_slice(buf, content);
    assert(bytes_mut_view(*final(buf)) =~= bytes_mut_view(*old(buf)) + enc_tlv(tag, content@));
    Ok(())
}

/// Appends the base-128 groups of `w`, every one with the continuation bit.
fn put_cont(w: u64, buf: &mut BytesMut)
    ensures
        bytes_mut_view(*final(buf)) == bytes_mut_view(*old(buf)) + b128_cont(w as nat),
    decreases w,
{
    if w < 128 {
        put_u8(buf, (w + 128) as u8);
    } else {
        put_cont(w / 128, buf);
        put_u8(buf, (w % 128 + 128) as u8);
    }
    assert(bytes_mut_view(*final(buf)) =~= bytes_mut_view(*old(buf)) + b128_cont(w as nat));
}

/// Appends one sub-identifier in minimal base-128 form.
fn put_subid(v: u64, buf: &mut BytesMut)
    ensures
        bytes_mut_view(*final(buf)) == bytes_mut_view(*old(buf)) + enc_subid(v as nat),
{
    if v < 128 {
        put_u8(buf, v as u8);
    } else {
        put_cont(v / 128, buf);
        put_u8(buf, (v % 128) as u8);
    }
    assert(bytes_mut_view(*final(buf)) =~= bytes_mut_view(*old(buf)) + enc_subid(v as nat));
}

/// Appends an OBJECT IDENTIFIER: the first two components as the one
/// sub-identifier `40 * a + b`, then each further component, all in minimal
/// base-128 form, after a length that counts the encoded bytes. A content too
/// long for a four-byte length field is refused, and nothing is written.
pub fn encode_oid(oid: &[u32], buf: &mut BytesMut) -> (r: Result<(), Asn1Error>)
    requires
        oid_valid(oid@),
    ensures
        oid_content(oid@).len() <= MAX_LENGTH ==> r is Ok && bytes_mut_view(*final(buf))
            == bytes_mut_view(*old(buf)) + enc_oid(oid@),
        oid_content(oid@).len() > MAX_LENGTH ==> r == Err::<(), Asn1Error>(
            Asn1Error::InvalidLength,
        ) && bytes_mut_view(*final(buf)) == bytes_mut_view(*old(buf)),
{
    let mut content = new_buf();
    let first: u64 = 40 * (oid[0] as u64) + oid[1] as u64;
    put_subid(first, &mut content);
    let mut i: usize = 2;
    while i < oid.len()
        invariant
            2 <= i <= oid.len(),
            first == 40 * oid@[0] + oid@[1],
            bytes_mut_view(content) == enc_subid(first as nat) + enc_subids(
                oid@.subrange(2, i as int),
            ),
        decreases oid.len() - i,
    {
        put_subid(oid[i] as u64, &mut content);
        assert(oid@.subrange(2, i + 1).drop_last() =~= oid@.subrange(2, i as int));
        assert(bytes_mut_view(content) =~= enc_subid(first as nat) + enc_subids(
            oid@.subrange(2, i + 1),
        ));
        i += 1;
    }
    assert(oid@.subrange(2, oid@.len() as int) =~= oid@.skip(2));
    let c = buf_slice(&content);
    encode_sequence(c, OBJECT_IDENTIFIER_TAG, buf)
}

} // verus!
