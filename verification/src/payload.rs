//! Page images as they cross the pool's boundary: immutable,
//! cheaply shared byte buffers.
//!
//! Nothing here is proved: each function states what the buffer's
//! documentation and source say of the call that it makes.

use bytes::Bytes;
use vstd::prelude::*;

verus! {

/// `bytes::Bytes`, whose inside the verifier does not see.
#[verifier::external_type_specification]
#[verifier::external_body]
pub struct ExBytes(Bytes);

/// The bytes that a buffer holds, in order.
pub uninterp spec fn bytes_of(buffer: Bytes) -> Seq<u8>;

/// `Bytes::copy_from_slice`: a buffer with a copy of the bytes of `data`.
#[verifier::external_body]
pub(crate) fn image_of(data: &Vec<u8>) -> (buffer: Bytes)
    ensures
        bytes_of(buffer) == data@,
{
    Bytes::copy_from_slice(data.as_slice())
}

/// `Bytes::len`: the number of bytes in the buffer.
#[verifier::external_body]
pub(crate) fn image_len(buffer: &Bytes) -> (len: usize)
    ensures
        len == bytes_of(*buffer).len(),
{
    buffer.len()
}

/// `Vec::from` a `Bytes`: the bytes of the buffer as a vector.
#[verifier::external_body]
pub(crate) fn into_vec(buffer: Bytes) -> (data: Vec<u8>)
    ensures
        data@ == bytes_of(buffer),
{
    Vec::from(buffer)
}

} // verus!
