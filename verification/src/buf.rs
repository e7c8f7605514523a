//! The byte-cursor boundary: thin trusted views of `bytes::Bytes`.
//!
//! The transport layer hands the codec a `bytes::Bytes` cursor. Everything
//! the codec reads from it goes through the wrappers below, whose contracts
//! speak of the cursor's remaining contents as a `Seq<u8>`.
use vstd::prelude::*;

use bytes::Buf;

verus! {

#[verifier::external_type_specification]
#[verifier::external_body]
pub struct ExBytes(bytes::Bytes);

/// The bytes still to be read from the cursor, front first.
pub uninterp spec fn bytes_view(b: bytes::Bytes) -> Seq<u8>;

/// Relies on `bytes::Buf::remaining` for `Bytes`: the number of bytes
/// between the current position and the end of the buffer.
#[verifier::external_body]
pub fn buf_remaining(b: &bytes::Bytes) -> (r: usize)
    ensures
        r == bytes_view(*b).len(),
{
    b.remaining()
}

/// Relies on `bytes::Buf::get_u8` for `Bytes`: pops the first byte and
/// advances the position by one.
#[verifier::external_body]
pub fn buf_get_u8(b: &mut bytes::Bytes) -> (r: u8)
    requires
        bytes_view(*old(b)).len() >= 1,
    ensures
        r == bytes_view(*old(b))[0],
        bytes_view(*final(b)) == bytes_view(*old(b)).skip(1),
{
    b.get_u8()
}

/// Relies on `bytes::Buf::get_u16` for `Bytes`: pops the first two bytes
/// as a big-endian unsigned integer.
#[verifier::external_body]
pub fn buf_get_u16(b: &mut bytes::Bytes) -> (r: u16)
    requires
        bytes_view(*old(b)).len() >= 2,
    ensures
        r == bytes_view(*old(b))[0] as int * 256 + bytes_view(*old(b))[1] as int,
        bytes_view(*final(b)) == bytes_view(*old(b)).skip(2),
{
    b.get_u16()
}

/// Relies on `bytes::Buf::copy_to_slice` for `Bytes`: moves the first `n`
/// bytes of the cursor into an owned vector.
#[verifier::external_body]
pub fn buf_read_bytes(b: &mut bytes::Bytes, n: usize) -> (r: Vec<u8>)
    requires
        n <= bytes_view(*old(b)).len(),
    ensures
        r@ == bytes_view(*old(b)).take(n as int),
        bytes_view(*final(b)) == bytes_view(*old(b)).skip(n as int),
{
    let mut v = vec![0u8; n];
    b.copy_to_slice(&mut v);
    v
}

} // verus!
