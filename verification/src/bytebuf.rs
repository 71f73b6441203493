//! Trusted view of `bytes::BytesMut`, the growable byte buffer that holds
//! serialized messages and the transfer payload of a session.
use vstd::prelude::*;

verus! {

#[verifier::external_type_specification]
#[verifier::external_body]
pub struct ExBytesMut(bytes::BytesMut);

/// The bytes that a `bytes::BytesMut` currently holds, front to back.
pub uninterp spec fn bytes_of(b: bytes::BytesMut) -> Seq<u8>;

/// Relies on `BytesMut::new`: a freshly created buffer is empty.
#[verifier::external_body]
pub fn bm_new() -> (r: bytes::BytesMut)
    ensures
        bytes_of(r) == Seq::<u8>::empty(),
{
    bytes::BytesMut::new()
}

/// Relies on `BytesMut::len`: the number of bytes the buffer holds.
#[verifier::external_body]
pub fn bm_len(b: &bytes::BytesMut) -> (r: usize)
    ensures
        r == bytes_of(*b).len(),
{
    b.len()
}

/// Relies on `BytesMut::extend_from_slice`: appends the slice at the back.
#[verifier::external_body]
pub fn bm_extend(b: &mut bytes::BytesMut, s: &[u8])
    ensures
        bytes_of(*final(b)) == bytes_of(*old(b)) + s@,
{
    b.extend_from_slice(s)
}

/// Relies on `BytesMut::split_to`: removes and returns the first `n` bytes,
/// leaving the rest. Panics when `n` exceeds the length, so that is ruled out.
#[verifier::external_body]
pub fn bm_split_to(b: &mut bytes::BytesMut, n: usize) -> (r: bytes::BytesMut)
    requires
        n <= bytes_of(*old(b)).len(),
    ensures
        bytes_of(r) == bytes_of(*old(b)).take(n as int),
        bytes_of(*final(b)) == bytes_of(*old(b)).skip(n as int),
{
    b.split_to(n)
}

/// Relies on `BytesMut`'s deref to `[u8]` (the held bytes in order): copies
/// the first `n` bytes out. Slicing panics past the length, so that is ruled out.
#[verifier::external_body]
pub fn bm_prefix(b: &bytes::BytesMut, n: usize) -> (r: Vec<u8>)
    requires
        n <= bytes_of(*b).len(),
    ensures
        r@ == bytes_of(*b).take(n as int),
{
    b[..n].to_vec()
}

/// Relies on `BytesMut`'s deref to `[u8]`: copies all held bytes out, in order.
#[verifier::external_body]
pub fn bm_to_vec(b: &bytes::BytesMut) -> (r: Vec<u8>)
    ensures
        r@ == bytes_of(*b),
{
    b.to_vec()
}

} // verus!
