//! What this crate takes on trust from `bytes::BytesMut`, the growable byte
//! buffer that the frame reader keeps its unparsed input in.
//!
//! Nothing in this file is proved. Each contract restates what the source of
//! the `bytes` crate shows of one method, over `buffer_bytes`, the bytes that
//! a buffer holds.

use bytes::BytesMut;
use vstd::prelude::*;

verus! {

/// `bytes::BytesMut`, taken as it is: nothing inside a value is visible to
/// the proofs.
#[verifier::external_type_specification]
#[verifier::external_body]
pub struct ExBytesMut(bytes::BytesMut);

/// The bytes that a buffer holds, first to last.
pub uninterp spec fn buffer_bytes(b: BytesMut) -> Seq<u8>;

/// `BytesMut::with_capacity` returns a buffer that holds no bytes. The
/// capacity goes to `Vec::with_capacity`, which panics above `isize::MAX`.
pub assume_specification[ BytesMut::with_capacity ](capacity: usize) -> (b: BytesMut)
    requires
        capacity <= isize::MAX,
    ensures
        buffer_bytes(b) == Seq::<u8>::empty(),
;

/// `BytesMut::len` returns the number of bytes held.
pub assume_specification[ BytesMut::len ](b: &BytesMut) -> (n: usize)
    ensures
        n == buffer_bytes(*b).len(),
;

/// `BytesMut::is_empty` tells whether no byte is held.
pub assume_specification[ BytesMut::is_empty ](b: &BytesMut) -> (e: bool)
    ensures
        e == (buffer_bytes(*b).len() == 0),
;

/// `BytesMut::capacity` returns how many bytes the buffer can hold without
/// allocating again, which is never less than it holds. How much more is
/// left to the allocator.
pub assume_specification[ BytesMut::capacity ](b: &BytesMut) -> (c: usize)
    ensures
        c >= buffer_bytes(*b).len(),
;

/// `BytesMut::reserve` makes room for `additional` more bytes and leaves the
/// bytes held as they are. It panics where the new capacity overflows.
pub assume_specification[ BytesMut::reserve ](b: &mut BytesMut, additional: usize)
    requires
        buffer_bytes(*old(b)).len() + additional <= isize::MAX,
    ensures
        buffer_bytes(*final(b)) == buffer_bytes(*old(b)),
;

/// `BytesMut::extend_from_slice` appends `extend` to the bytes held. It
/// reserves room first, and panics where the new capacity overflows.
pub assume_specification[ BytesMut::extend_from_slice ](b: &mut BytesMut, extend: &[u8])
    requires
        buffer_bytes(*old(b)).len() + extend@.len() <= isize::MAX,
    ensures
        buffer_bytes(*final(b)) == buffer_bytes(*old(b)) + extend@,
;

/// `BytesMut::split_to` takes the first `at` bytes out of the buffer and
/// returns them as a buffer of their own; the rest stays. It panics where
/// `at` exceeds the number of bytes held.
pub assume_specification[ BytesMut::split_to ](b: &mut BytesMut, at: usize) -> (front: BytesMut)
    requires
        at <= buffer_bytes(*old(b)).len(),
    ensures
        buffer_bytes(front) == buffer_bytes(*old(b)).take(at as int),
        buffer_bytes(*final(b)) == buffer_bytes(*old(b)).skip(at as int),
;

/// `Buf::advance` on a `BytesMut` drops its first `cnt` bytes. It panics
/// where `cnt` exceeds the number of bytes held.
#[verifier::external_body]
pub(crate) fn buffer_advance(b: &mut BytesMut, cnt: usize)
    requires
        cnt <= buffer_bytes(*old(b)).len(),
    ensures
        buffer_bytes(*final(b)) == buffer_bytes(*old(b)).skip(cnt as int),
{
    bytes::Buf::advance(b, cnt)
}

/// `Deref` on a `BytesMut` lends the bytes held as a slice.
#[verifier::external_body]
pub(crate) fn buffer_slice(b: &BytesMut) -> (s: &[u8])
    ensures
        s@ == buffer_bytes(*b),
{
    core::ops::Deref::deref(b)
}

} // verus!
