//! Byte buffers of the `bytes` crate, as the codecs use them.
//!
//! `BytesMut` and `Bytes` are opaque to the verifier; what they hold is named
//! by `bytes_mut_view` and `bytes_view`, and each method that the codecs call
//! has a wrapper whose contract says what it does to those contents.
use vstd::prelude::*;

verus! {

#[verifier::external_type_specification]
#[verifier::external_body]
pub struct ExBytesMut(bytes::BytesMut);

#[verifier::external_type_specification]
#[verifier::external_body]
pub struct ExBytes(bytes::Bytes);

/// The bytes that a `BytesMut` holds, from its read position to its end.
pub uninterp spec fn bytes_mut_view(b: bytes::BytesMut) -> Seq<u8>;

/// The bytes that a `Bytes` holds.
pub uninterp spec fn bytes_view(b: bytes::Bytes) -> Seq<u8>;

/// `BytesMut::new`: an empty buffer.
#[verifier::external_body]
pub(crate) fn buf_new() -> (b: bytes::BytesMut)
    ensures
        bytes_mut_view(b) == Seq::<u8>::empty(),
{
    bytes::BytesMut::new()
}

/// `BytesMut::len`: the number of bytes held.
#[verifier::external_body]
pub(crate) fn buf_len(b: &bytes::BytesMut) -> (n: usize)
    ensures
        n == bytes_mut_view(*b).len(),
{
    b.len()
}

/// `Buf::get_u8` on a `BytesMut`: takes the first byte off the front.
/// The crate panics on an empty buffer; that input is excluded.
#[verifier::external_body]
pub(crate) fn buf_get_u8(b: &mut bytes::BytesMut) -> (x: u8)
    requires
        bytes_mut_view(*old(b)).len() >= 1,
    ensures
        x == bytes_mut_view(*old(b))[0],
        bytes_mut_view(*final(b)) == bytes_mut_view(*old(b)).drop_first(),
{
    bytes::Buf::get_u8(b)
}

/// `Buf::get_u16` on a `BytesMut`: takes two bytes off the front and reads
/// them as a big-endian number. The crate panics when fewer than two bytes
/// are left; that input is excluded.
#[verifier::external_body]
pub(crate) fn buf_get_u16(b: &mut bytes::BytesMut) -> (x: u16)
    requires
        bytes_mut_view(*old(b)).len() >= 2,
    ensures
        x == bytes_mut_view(*old(b))[0] * 256 + bytes_mut_view(*old(b))[1],
        bytes_mut_view(*final(b)) == bytes_mut_view(*old(b)).skip(2),
{
    bytes::Buf::get_u16(b)
}

/// `BufMut::put_u8` on a `BytesMut`: appends one byte. Growing past
/// `isize::MAX` bytes panics in the crate; that input is excluded.
#[verifier::external_body]
pub(crate) fn buf_put_u8(b: &mut bytes::BytesMut, x: u8)
    requires
        bytes_mut_view(*old(b)).len() + 1 <= isize::MAX,
    ensures
        bytes_mut_view(*final(b)) == bytes_mut_view(*old(b)).push(x),
{
    bytes::BufMut::put_u8(b, x)
}

/// `BytesMut::extend_from_slice`: appends the bytes of a slice. Growing past
/// `isize::MAX` bytes panics in the crate; that input is excluded.
#[verifier::external_body]
pub(crate) fn buf_extend_from_slice(b: &mut bytes::BytesMut, s: &[u8])
    requires
        bytes_mut_view(*old(b)).len() + s@.len() <= isize::MAX,
    ensures
        bytes_mut_view(*final(b)) == bytes_mut_view(*old(b)) + s@,
{
    b.extend_from_slice(s)
}

/// `BytesMut::split_to`: hands out the first `at` bytes and keeps the rest.
/// The crate panics when `at` exceeds the length; that input is excluded.
#[verifier::external_body]
pub(crate) fn buf_split_to(b: &mut bytes::BytesMut, at: usize) -> (front: bytes::BytesMut)
    requires
        at <= bytes_mut_view(*old(b)).len(),
    ensures
        bytes_mut_view(front) == bytes_mut_view(*old(b)).take(at as int),
        bytes_mut_view(*final(b)) == bytes_mut_view(*old(b)).skip(at as int),
{
    b.split_to(at)
}

/// `AsRef<[u8]>` of a `BytesMut`, copied into a `Vec` (`Vec::from`).
#[verifier::external_body]
pub(crate) fn buf_to_vec(b: &bytes::BytesMut) -> (v: Vec<u8>)
    ensures
        v@ == bytes_mut_view(*b),
{
    Vec::from(b.as_ref())
}

/// The bytes of a `BytesMut` as a slice (`AsRef<[u8]>`), without taking
/// them off.
#[verifier::external_body]
pub(crate) fn buf_as_slice(b: &bytes::BytesMut) -> (s: &[u8])
    ensures
        s@ == bytes_mut_view(*b),
{
    b.as_ref()
}

/// `Extend<u8>` of a `BytesMut` with the bytes of another one: appends
/// them. Growing past `isize::MAX` bytes panics in the crate; that input is
/// excluded.
#[verifier::external_body]
pub(crate) fn buf_extend(b: &mut bytes::BytesMut, other: bytes::BytesMut)
    requires
        bytes_mut_view(*old(b)).len() + bytes_mut_view(other).len() <= isize::MAX,
    ensures
        bytes_mut_view(*final(b)) == bytes_mut_view(*old(b)) + bytes_mut_view(other),
{
    b.extend(other)
}

/// `BytesMut::freeze`: the same bytes, as an immutable `Bytes`.
#[verifier::external_body]
pub(crate) fn buf_freeze(b: bytes::BytesMut) -> (r: bytes::Bytes)
    ensures
        bytes_view(r) == bytes_mut_view(b),
{
    b.freeze()
}

} // verus!
