//! The byte buffer that headers are read from and written to.
use bytes::{Buf, BufMut, BytesMut};
use vstd::prelude::*;

verus! {

/// `bytes::BytesMut`, a growable buffer of bytes.
#[verifier::external_type_specification]
#[verifier::external_body]
pub struct ExBytesMut(BytesMut);

/// The bytes that a buffer holds, front first.
pub uninterp spec fn contents(buf: BytesMut) -> Seq<u8>;

/// `BytesMut::new`: the new buffer is empty.
#[verifier::external_body]
pub(crate) fn empty() -> (buf: BytesMut)
    ensures
        contents(buf) == Seq::<u8>::empty(),
{
    BytesMut::new()
}

/// `BytesMut::len`: the number of bytes that the buffer holds.
#[verifier::external_body]
pub(crate) fn len(buf: &BytesMut) -> (n: usize)
    ensures
        n == contents(*buf).len(),
{
    buf.len()
}

/// `<BytesMut as Deref>::deref`: the bytes of the buffer as a slice.
#[verifier::external_body]
pub(crate) fn as_slice(buf: &BytesMut) -> (s: &[u8])
    ensures
        s@ == contents(*buf),
{
    &buf[..]
}

/// `Buf::advance`: drops the first `cnt` bytes. It panics past the end.
#[verifier::external_body]
pub(crate) fn advance(buf: &mut BytesMut, cnt: usize)
    requires
        cnt <= contents(*old(buf)).len(),
    ensures
        contents(*final(buf)) == contents(*old(buf)).skip(cnt as int),
{
    buf.advance(cnt)
}

/// `BytesMut::split_to`: moves the first `at` bytes into a buffer of their own.
/// It panics past the end.
#[verifier::external_body]
pub(crate) fn split_to(buf: &mut BytesMut, at: usize) -> (front: BytesMut)
    requires
        at <= contents(*old(buf)).len(),
    ensures
        contents(front) == contents(*old(buf)).take(at as int),
        contents(*final(buf)) == contents(*old(buf)).skip(at as int),
{
    buf.split_to(at)
}

/// `BufMut::put` of a slice: appends the bytes of `src`. It panics where the length would
/// leave what can be allocated; that the memory for less can be had is taken for granted.
#[verifier::external_body]
pub(crate) fn put(buf: &mut BytesMut, src: &[u8])
    requires
        contents(*old(buf)).len() + src@.len() <= isize::MAX,
    ensures
        contents(*final(buf)) == contents(*old(buf)) + src@,
{
    buf.put(src)
}

/// `Buf::copy_to_slice` into the first `cnt` places of `dst`: moves the first `cnt` bytes
/// out of the buffer. It panics where the buffer holds fewer.
#[verifier::external_body]
pub(crate) fn copy_to_front(buf: &mut BytesMut, dst: &mut [u8], cnt: usize)
    requires
        cnt <= contents(*old(buf)).len(),
        cnt <= old(dst)@.len(),
    ensures
        contents(*final(buf)) == contents(*old(buf)).skip(cnt as int),
        final(dst)@ == contents(*old(buf)).take(cnt as int) + old(dst)@.skip(cnt as int),
{
    buf.copy_to_slice(&mut dst[..cnt])
}

} // verus!
