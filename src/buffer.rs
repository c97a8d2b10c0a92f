//! The shared byte buffer: a `bytes::BytesMut` whose unread bytes are
//! modelled as a sequence.
use bytes::{Buf, BytesMut};
use vstd::prelude::*;

verus! {

#[verifier::external_type_specification]
#[verifier::external_body]
pub struct ExBytesMut(BytesMut);

/// The unread bytes of a buffer, from its read cursor to its end.
pub uninterp spec fn pending(b: BytesMut) -> Seq<u8>;

/// Relies on `BytesMut::len`: the number of unread bytes.
#[verifier::external_body]
pub(crate) fn pending_len(b: &BytesMut) -> (r: usize)
    ensures
        r == pending(*b).len(),
{
    b.len()
}

/// Relies on `Buf::chunk` of `BytesMut`: a view of all its unread bytes.
#[verifier::external_body]
pub(crate) fn pending_bytes(b: &BytesMut) -> (r: &[u8])
    ensures
        r@ == pending(*b),
{
    b.chunk()
}

/// Relies on `Buf::advance` of `BytesMut`: moves the read cursor forward by
/// `n` bytes; it panics past the end, which `requires` leaves out.
#[verifier::external_body]
pub(crate) fn advance_by(b: &mut BytesMut, n: usize)
    requires
        n <= pending(*old(b)).len(),
    ensures
        pending(*final(b)) == pending(*old(b)).skip(n as int),
{
    b.advance(n)
}

/// Relies on `Buf::copy_to_slice` of `BytesMut`: copies the first `n` unread
/// bytes into the front of `dst` and moves the read cursor past them; it
/// panics when fewer are unread, which `requires` leaves out.
#[verifier::external_body]
pub(crate) fn copy_out(b: &mut BytesMut, dst: &mut [u8], n: usize)
    requires
        n <= pending(*old(b)).len(),
        n <= old(dst)@.len(),
    ensures
        pending(*final(b)) == pending(*old(b)).skip(n as int),
        final(dst)@ == pending(*old(b)).take(n as int) + old(dst)@.skip(n as int),
{
    b.copy_to_slice(&mut dst[..n])
}

} // verus!
