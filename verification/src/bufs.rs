//! The byte containers of the `bytes` crate, as the rest of the library sees
//! them: each value stands for the sequence of bytes it holds.
use bytes::{Bytes, BytesMut};
use vstd::prelude::*;

verus! {

#[verifier::external_type_specification]
#[verifier::external_body]
pub struct ExBytes(bytes::Bytes);

#[verifier::external_type_specification]
#[verifier::external_body]
pub struct ExBytesMut(bytes::BytesMut);

/// The bytes that a frozen `Bytes` buffer holds.
pub uninterp spec fn bytes_content(b: Bytes) -> Seq<u8>;

/// The bytes that a growable `BytesMut` buffer holds (its length, not its capacity).
pub uninterp spec fn bytes_mut_content(b: BytesMut) -> Seq<u8>;

/// `BytesMut::with_capacity`: a new buffer that holds no bytes. A capacity
/// past `isize::MAX` bytes panics in the allocator, so that is left out. The
/// capacity reserved is left unsaid.
#[verifier::external_body]
pub(crate) fn bytes_mut_with_capacity(capacity: usize) -> (r: BytesMut)
    requires
        capacity <= isize::MAX,
    ensures
        bytes_mut_content(r) == Seq::<u8>::empty(),
{
    BytesMut::with_capacity(capacity)
}

/// `BytesMut::new`: a new buffer that holds no bytes.
#[verifier::external_body]
pub(crate) fn bytes_mut_new() -> (r: BytesMut)
    ensures
        bytes_mut_content(r) == Seq::<u8>::empty(),
{
    BytesMut::new()
}

/// `BytesMut::len`: the number of bytes the buffer holds.
#[verifier::external_body]
pub(crate) fn bytes_mut_len(b: &BytesMut) -> (r: usize)
    ensures
        r == bytes_mut_content(*b).len(),
{
    b.len()
}

/// Indexing a `BytesMut` through its slice: the byte at position `i`.
/// It panics out of bounds, so `i` is required to be in bounds.
#[verifier::external_body]
pub(crate) fn bytes_mut_byte_at(b: &BytesMut, i: usize) -> (r: u8)
    requires
        i < bytes_mut_content(*b).len(),
    ensures
        r == bytes_mut_content(*b)[i as int],
{
    b[i]
}

/// `BytesMut::resize`: cuts the buffer down to `new_len` bytes, or fills it up
/// to `new_len` with copies of `value`. Growing past `isize::MAX` bytes panics
/// in the allocator, so that is left out.
#[verifier::external_body]
pub(crate) fn bytes_mut_resize(b: &mut BytesMut, new_len: usize, value: u8)
    requires
        new_len <= isize::MAX,
    ensures
        bytes_mut_content(*final(b)) == if new_len <= bytes_mut_content(*old(b)).len() {
            bytes_mut_content(*old(b)).take(new_len as int)
        } else {
            bytes_mut_content(*old(b)) + Seq::new(
                (new_len - bytes_mut_content(*old(b)).len()) as nat,
                |i: int| value,
            )
        },
{
    b.resize(new_len, value)
}

/// `BytesMut::truncate`: keeps the first `len` bytes; a `len` past the end
/// changes nothing.
#[verifier::external_body]
pub(crate) fn bytes_mut_truncate(b: &mut BytesMut, len: usize)
    ensures
        bytes_mut_content(*final(b)) == if len <= bytes_mut_content(*old(b)).len() {
            bytes_mut_content(*old(b)).take(len as int)
        } else {
            bytes_mut_content(*old(b))
        },
{
    b.truncate(len)
}

/// `Extend<u8>` for `BytesMut`, fed with the bytes of another buffer: appends
/// them at the end. The combined length must stay within what an allocation
/// can hold.
#[verifier::external_body]
pub(crate) fn bytes_mut_extend(b: &mut BytesMut, other: BytesMut)
    requires
        bytes_mut_content(*old(b)).len() + bytes_mut_content(other).len() <= isize::MAX,
    ensures
        bytes_mut_content(*final(b)) == bytes_mut_content(*old(b)) + bytes_mut_content(other),
{
    b.extend(other)
}

/// `BytesMut::split_to`: hands out the first `at` bytes and keeps the rest.
/// It panics when `at` is past the end, so that is left out.
#[verifier::external_body]
pub(crate) fn bytes_mut_split_to(b: &mut BytesMut, at: usize) -> (r: BytesMut)
    requires
        at <= bytes_mut_content(*old(b)).len(),
    ensures
        bytes_mut_content(r) == bytes_mut_content(*old(b)).take(at as int),
        bytes_mut_content(*final(b)) == bytes_mut_content(*old(b)).skip(at as int),
{
    b.split_to(at)
}

/// `Clone` for `BytesMut`: a new buffer with the same bytes.
#[verifier::external_body]
pub(crate) fn bytes_mut_clone(b: &BytesMut) -> (r: BytesMut)
    ensures
        bytes_mut_content(r) == bytes_mut_content(*b),
{
    b.clone()
}

/// `From<BytesMut> for Bytes` (that is, `BytesMut::freeze`): the same bytes,
/// now immutable.
#[verifier::external_body]
pub(crate) fn bytes_freeze(b: BytesMut) -> (r: Bytes)
    ensures
        bytes_content(r) == bytes_mut_content(b),
{
    b.into()
}

} // verus!
