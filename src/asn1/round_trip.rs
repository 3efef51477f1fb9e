//! Decoding what the encoders emit gives back what was encoded.
use crate::asn1::decode::lemma_take_subid_shrinks;
use crate::asn1::model::{
    b128_cont, be_bytes, be_len, be_value, enc_integer, enc_length, enc_null, enc_octet_string,
    enc_oid, enc_subid, enc_subids, enc_tlv, int_content, int_len, oid_content, oid_valid,
    parse_integer, parse_length, parse_null, parse_octet_string, parse_oid, parse_oid_content,
    parse_subids, parse_tlv, pow128, pow256, signed_value, split_first, take_subid, twos,
    Asn1Error, INTEGER_TAG, MAX_LENGTH, NULL_TAG, OBJECT_IDENTIFIER_TAG, OCTET_STRING_TAG,
    SUBID_LIMIT,
};
use crate::asn1::encode::lemma_be_bytes_len;
use vstd::arithmetic::div_mod::lemma_mod_breakdown;
use vstd::prelude::*;

verus! {

pub proof fn lemma_pow256_pos(k: nat)
    ensures
        pow256(k) > 0,
    decreases k,
{
    if k > 0 {
        lemma_pow256_pos((k - 1) as nat);
    }
}

pub proof fn lemma_pow128_pos(k: nat)
    ensures
        pow128(k) > 0,
    decreases k,
{
    if k > 0 {
        lemma_pow128_pos((k - 1) as nat);
    }
}

/// Spelling the `k` low bytes of `n` and reading them back gives `n` modulo `256^k`.
pub proof fn lemma_be_value_bytes(n: nat, k: nat)
    ensures
        be_value(be_bytes(n, k)) == n % pow256(k),
    decreases k,
{
    if k > 0 {
        let p = pow256((k - 1) as nat);
        lemma_be_value_bytes(n / 256, (k - 1) as nat);
        lemma_pow256_pos((k - 1) as nat);
        lemma_mod_breakdown(n as int, 256, p as int);
        let b = be_bytes(n, k);
        assert(b.drop_last() =~= be_bytes(n / 256, (k - 1) as nat));
    }
}

pub proof fn lemma_be_len_bound(n: nat)
    ensures
        n < pow256(be_len(n)),
    decreases n,
{
    if n > 0 {
        lemma_be_len_bound(n / 256);
        let p = pow256(be_len(n / 256));
        assert(n < 256 * p) by (nonlinear_arith)
            requires
                n / 256 < p,
        ;
    }
}

/// A length field read back gives the length, for every length that fits in
/// four length bytes.
pub proof fn lemma_length_round_trip(n: nat, rest: Seq<u8>)
    requires
        n <= MAX_LENGTH,
    ensures
        parse_length(enc_length(n) + rest) == Ok::<(nat, Seq<u8>), Asn1Error>((n, rest)),
{
    let s = enc_length(n) + rest;
    if n <= 127 {
        assert(s.drop_first() =~= rest);
    } else {
        reveal_with_fuel(be_len, 5);
        let k = be_len(n);
        assert(1 <= k <= 4);
        lemma_be_bytes_len(n, k);
        lemma_be_len_bound(n);
        lemma_be_value_bytes(n, k);
        assert(n % pow256(k) == n) by (nonlinear_arith)
            requires
                n < pow256(k),
        ;
        assert(s.subrange(1, 1 + k as int) =~= be_bytes(n, k));
        assert(s.skip(1 + k as int) =~= rest);
    }
}

/// A long-form length field with more than four length bytes is refused.
pub proof fn lemma_length_too_many_bytes(s: Seq<u8>)
    requires
        s.len() > 0,
        s[0] > 0x84,
    ensures
        parse_length(s) == Err::<(nat, Seq<u8>), Asn1Error>(Asn1Error::InvalidLength),
{
}

/// A tag, length and content read back give the tag and the content.
pub proof fn lemma_tlv_round_trip(tag: u8, c: Seq<u8>, rest: Seq<u8>)
    requires
        c.len() <= MAX_LENGTH,
    ensures
        parse_tlv(enc_tlv(tag, c) + rest) == Ok::<(u8, Seq<u8>, Seq<u8>), Asn1Error>(
            (tag, c, rest),
        ),
{
    let s = enc_tlv(tag, c) + rest;
    let l = enc_length(c.len());
    assert(s.drop_first() =~= l + (c + rest));
    lemma_length_round_trip(c.len(), c + rest);
    assert((c + rest).take(c.len() as int) =~= c);
    assert((c + rest).skip(c.len() as int) =~= rest);
}

pub proof fn lemma_integer_round_trip(v: i32, rest: Seq<u8>)
    ensures
        parse_integer(enc_integer(v) + rest) == Ok::<(i32, Seq<u8>), Asn1Error>((v, rest)),
{
    let k = int_len(v);
    let c = int_content(v);
    reveal_with_fuel(pow256, 5);
    lemma_be_bytes_len(twos(v as int, k), k);
    lemma_be_value_bytes(twos(v as int, k), k);
    let u = twos(v as int, k);
    assert(u < pow256(k));
    assert(u % pow256(k) == u) by (nonlinear_arith)
        requires
            u < pow256(k),
    ;
    assert(signed_value(c) == v);
    lemma_tlv_round_trip(INTEGER_TAG, c, rest);
    let s = enc_integer(v) + rest;
    let l = enc_length(c.len());
    assert(s.drop_first() =~= l + (c + rest));
    lemma_length_round_trip(c.len(), c + rest);
    assert((c + rest).take(c.len() as int) =~= c);
    assert((c + rest).skip(c.len() as int) =~= rest);
}

pub proof fn lemma_octet_string_round_trip(data: Seq<u8>, rest: Seq<u8>)
    requires
        data.len() <= MAX_LENGTH,
    ensures
        parse_octet_string(enc_octet_string(data) + rest) == Ok::<(Seq<u8>, Seq<u8>), Asn1Error>(
            (data, rest),
        ),
{
    lemma_tlv_round_trip(OCTET_STRING_TAG, data, rest);
}

pub proof fn lemma_null_round_trip(rest: Seq<u8>)
    ensures
        parse_null(enc_null() + rest) == Ok::<Seq<u8>, Asn1Error>(rest),
{
    let s = enc_null() + rest;
    lemma_length_round_trip(0, rest);
    assert(s.drop_first() =~= enc_length(0) + rest);
}

/// A NULL whose length is not zero is refused.
pub proof fn lemma_null_nonzero_rejected(s: Seq<u8>, n: nat, rest: Seq<u8>)
    requires
        s.len() > 0,
        s[0] == NULL_TAG,
        parse_length(s.drop_first()) == Ok::<(nat, Seq<u8>), Asn1Error>((n, rest)),
        n != 0,
    ensures
        parse_null(s) == Err::<Seq<u8>, Asn1Error>(Asn1Error::InvalidNull),
{
}

/// Groups with the continuation bit, read on top of `acc`, leave the reader
/// at `acc * 128^len + w` before what follows.
proof fn lemma_cont_read(w: nat, s: Seq<u8>, acc: nat)
    requires
        acc * pow128(b128_cont(w).len()) + w <= SUBID_LIMIT,
    ensures
        take_subid(b128_cont(w) + s, acc) == take_subid(s, acc * pow128(b128_cont(w).len()) + w),
    decreases w,
{
    let t = b128_cont(w) + s;
    if w < 128 {
        assert(t.drop_first() =~= s);
        assert(((w + 128) as u8) % 128 == w);
        assert(pow128(1) == 128) by {
            reveal_with_fuel(pow128, 2);
        }
    } else {
        let h = b128_cont(w / 128);
        let x = (w % 128 + 128) as u8;
        let l = h.len();
        lemma_pow128_pos(l);
        assert(t =~= h + (seq![x] + s));
        assert(acc * pow128(l) + w / 128 <= acc * pow128(l + 1) + w) by (nonlinear_arith)
            requires
                pow128(l + 1) == 128 * pow128(l),
                w / 128 <= w,
        ;
        lemma_cont_read(w / 128, seq![x] + s, acc);
        let a0 = acc * pow128(l) + w / 128;
        assert((seq![x] + s).drop_first() =~= s);
        assert(x % 128 == w % 128);
        assert(a0 * 128 + w % 128 == acc * pow128(l + 1) + w) by (nonlinear_arith)
            requires
                a0 == acc * pow128(l) + w / 128,
                pow128(l + 1) == 128 * pow128(l),
                w == 128 * (w / 128) + w % 128,
        ;
    }
}

/// One sub-identifier read back.
proof fn lemma_subid_read(v: nat, rest: Seq<u8>)
    requires
        v <= SUBID_LIMIT,
    ensures
        take_subid(enc_subid(v) + rest, 0) == Ok::<(nat, Seq<u8>), Asn1Error>((v, rest)),
{
    let t = enc_subid(v) + rest;
    if v < 128 {
        assert(t.drop_first() =~= rest);
    } else {
        let h = b128_cont(v / 128);
        let x = (v % 128) as u8;
        assert(t =~= h + (seq![x] + rest));
        lemma_pow128_pos(h.len());
        lemma_cont_read(v / 128, seq![x] + rest, 0);
        assert((seq![x] + rest).drop_first() =~= rest);
    }
}

proof fn lemma_enc_subids_front(t: Seq<u32>)
    requires
        t.len() > 0,
    ensures
        enc_subids(t) == enc_subid(t[0] as nat) + enc_subids(t.drop_first()),
    decreases t.len(),
{
    if t.len() == 1 {
        assert(t.drop_last() =~= Seq::<u32>::empty());
        assert(t.drop_first() =~= Seq::<u32>::empty());
        assert(enc_subids(t) =~= enc_subid(t[0] as nat) + enc_subids(t.drop_first()));
    } else {
        lemma_enc_subids_front(t.drop_last());
        assert(t.drop_last().drop_first() =~= t.drop_first().drop_last());
        assert(enc_subids(t) =~= enc_subid(t[0] as nat) + enc_subids(t.drop_first()));
    }
}

proof fn lemma_subids_read(t: Seq<u32>)
    ensures
        parse_subids(enc_subids(t)) == Ok::<Seq<u32>, Asn1Error>(t),
    decreases t.len(),
{
    if t.len() == 0 {
        assert(t =~= Seq::<u32>::empty());
    } else {
        lemma_enc_subids_front(t);
        let s = enc_subids(t);
        let tail = enc_subids(t.drop_first());
        lemma_subid_read(t[0] as nat, tail);
        lemma_take_subid_shrinks(s, 0);
        lemma_subids_read(t.drop_first());
        assert(seq![t[0]] + t.drop_first() =~= t);
        assert(take_subid(s, 0) == Ok::<(nat, Seq<u8>), Asn1Error>((t[0] as nat, tail)));
        assert(tail.len() < s.len());
        assert(parse_subids(tail) == Ok::<Seq<u32>, Asn1Error>(t.drop_first()));
    }
}

/// Encoding an OID and decoding the result gives the OID back.
pub proof fn lemma_oid_round_trip(o: Seq<u32>, rest: Seq<u8>)
    requires
        oid_valid(o),
        oid_content(o).len() <= MAX_LENGTH,
    ensures
        parse_oid(enc_oid(o) + rest) == Ok::<(Seq<u32>, Seq<u8>), Asn1Error>((o, rest)),
{
    let first = (40 * o[0] + o[1]) as nat;
    let tail = enc_subids(o.skip(2));
    lemma_subid_read(first, tail);
    lemma_subids_read(o.skip(2));
    assert(split_first(first) + o.skip(2) =~= o);
    assert(parse_oid_content(oid_content(o)) == Ok::<Seq<u32>, Asn1Error>(o));
    lemma_tlv_round_trip(OBJECT_IDENTIFIER_TAG, oid_content(o), rest);
}

} // verus!
