//! Byte buffers of the `bytes` crate, as the codec sees them.
//!
//! `BytesMut` is the growable output buffer of the encoders and `Bytes` the
//! read cursor of the decoders. Each is modelled by the byte sequence it holds.
use bytes::{Buf, BufMut, Bytes, BytesMut};
use vstd::prelude::*;

verus! {

#[verifier::external_type_specification]
#[verifier::external_body]
pub struct ExBytesMut(BytesMut);

#[verifier::external_type_specification]
#[verifier::external_body]
pub struct ExBytes(Bytes);

/// The bytes held by a `BytesMut`, first to last.
pub uninterp spec fn bytes_mut_view(b: BytesMut) -> Seq<u8>;

/// The bytes that remain to be read from a `Bytes`, first to last.
pub uninterp spec fn bytes_view(b: Bytes) -> Seq<u8>;

/// Relies on `BytesMut::new`: a new buffer holds no bytes.
#[verifier::external_body]
pub(crate) fn new_buf() -> (r: BytesMut)
    ensures
        bytes_mut_view(r) == Seq::<u8>::empty(),
{
    BytesMut::new()
}

/// Relies on `BufMut::put_u8` for `BytesMut`: appends one byte.
#[verifier::external_body]
pub(crate) fn put_u8(buf: &mut BytesMut, b: u8)
    ensures
        bytes_mut_view(*final(buf)) == bytes_mut_view(*old(buf)).push(b),
{
    buf.put_u8(b)
}

/// Relies on `BufMut::put_slice` for `BytesMut`: appends the slice.
#[verifier::external_body]
pub(crate) fn put_slice(buf: &mut BytesMut, s: &[u8])
    ensures
        bytes_mut_view(*final(buf)) == bytes_mut_view(*old(buf)) + s@,
{
    buf.put_slice(s)
}

/// Relies on `BytesMut`'s `Deref` to `[u8]`: the slice of the bytes held.
#[verifier::external_body]
pub(crate) fn buf_slice(buf: &BytesMut) -> (r: &[u8])
    ensures
        r@ == bytes_mut_view(*buf),
{
    &buf[..]
}

/// Relies on `From<BytesMut> for Vec<u8>`: the vector holds the same bytes.
#[verifier::external_body]
pub(crate) fn buf_into_vec(buf: BytesMut) -> (r: Vec<u8>)
    ensures
        r@ == bytes_mut_view(buf),
{
    Vec::from(buf)
}

/// Relies on `Bytes::copy_from_slice`: a cursor over a copy of the slice.
#[verifier::external_body]
pub(crate) fn bytes_from_slice(data: &[u8]) -> (r: Bytes)
    ensures
        bytes_view(r) == data@,
{
    Bytes::copy_from_slice(data)
}

/// Relies on `Buf::remaining` for `Bytes`: the number of unread bytes.
#[verifier::external_body]
pub(crate) fn remaining(buf: &Bytes) -> (r: usize)
    ensures
        r == bytes_view(*buf).len(),
{
    buf.remaining()
}

/// Relies on `Bytes`'s `Deref` to `[u8]`, indexed at 0: the next byte, unread.
#[verifier::external_body]
pub(crate) fn first_byte(buf: &Bytes) -> (r: u8)
    requires
        bytes_view(*buf).len() > 0,
    ensures
        r == bytes_view(*buf)[0],
{
    buf[0]
}

/// Relies on `Buf::get_u8` for `Bytes`: reads one byte and moves past it.
/// It panics on an empty cursor, which `requires` leaves out.
#[verifier::external_body]
pub(crate) fn get_u8(buf: &mut Bytes) -> (r: u8)
    requires
        bytes_view(*old(buf)).len() > 0,
    ensures
        r == bytes_view(*old(buf))[0],
        bytes_view(*final(buf)) == bytes_view(*old(buf)).drop_first(),
{
    buf.get_u8()
}

/// Relies on `Bytes::split_to`: hands out the first `at` bytes and keeps the
/// rest. It panics when `at` exceeds the length, which `requires` leaves out.
#[verifier::external_body]
pub(crate) fn split_to(buf: &mut Bytes, at: usize) -> (r: Bytes)
    requires
        at <= bytes_view(*old(buf)).len(),
    ensures
        bytes_view(r) == bytes_view(*old(buf)).take(at as int),
        bytes_view(*final(buf)) == bytes_view(*old(buf)).skip(at as int),
{
    buf.split_to(at)
}

/// Relies on `Buf::copy_to_slice` for `Bytes`: copies the next `len` bytes into
/// a new vector and moves past them. It panics when fewer remain, which
/// `requires` leaves out.
#[verifier::external_body]
pub(crate) fn take_vec(buf: &mut Bytes, len: usize) -> (r: Vec<u8>)
    requires
        len <= bytes_view(*old(buf)).len(),
    ensures
        r@ == bytes_view(*old(buf)).take(len as int),
        bytes_view(*final(buf)) == bytes_view(*old(buf)).skip(len as int),
{
    let mut out = vec![0u8; len];
    buf.copy_to_slice(&mut out);
    out
}

} // verus!
