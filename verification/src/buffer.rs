//! Shared byte buffers.
//!
//! Blob data travels as [`Bytes`], whose clones and slices share one allocation. Everything the
//! library states about a buffer is stated over the bytes that it holds, [`bytes_view`].

use crate::error::Error;
use hyper::body::Bytes;
use vstd::prelude::*;

verus! {

/// `hyper::body::Bytes`, a reference-counted byte buffer.
#[verifier::external_type_specification]
#[verifier::external_body]
pub struct ExBytes(Bytes);

/// The bytes that a buffer holds.
pub uninterp spec fn bytes_view(b: Bytes) -> Seq<u8>;

/// `Bytes::len`: the number of bytes held.
#[verifier::external_body]
pub(crate) fn bytes_len(b: &Bytes) -> (len: usize)
    ensures
        len == bytes_view(*b).len(),
{
    b.len()
}

/// `<Bytes as Clone>::clone`: another handle on the same bytes.
#[verifier::external_body]
pub(crate) fn bytes_clone(b: &Bytes) -> (copy: Bytes)
    ensures
        bytes_view(copy) == bytes_view(*b),
{
    b.clone()
}

/// `Bytes::slice` on `start..end`: the bytes from `start` up to, but excluding, `end`. It panics
/// where the range is reversed or reaches past the buffer, so both are left out.
#[verifier::external_body]
pub(crate) fn bytes_slice(b: &Bytes, start: usize, end: usize) -> (part: Bytes)
    requires
        start <= end <= bytes_view(*b).len(),
    ensures
        bytes_view(part) == bytes_view(*b).subrange(start as int, end as int),
{
    b.slice(start..end)
}

/// `<Bytes as From<Vec<u8>>>::from`: the vector's bytes, unchanged.
#[verifier::external_body]
pub(crate) fn bytes_from_vec(data: Vec<u8>) -> (b: Bytes)
    ensures
        bytes_view(b) == data@,
{
    Bytes::from(data)
}

/// `<Bytes as AsRef<[u8]>>::as_ref`: the bytes held, as a slice.
#[verifier::external_body]
pub(crate) fn bytes_as_slice(b: &Bytes) -> (data: &[u8])
    ensures
        data@ == bytes_view(*b),
{
    b.as_ref()
}

/// The bytes of a buffer, or the error that came instead of it.
pub open spec fn result_view(result: Result<Bytes, Error>) -> Result<Seq<u8>, Error> {
    match result {
        Ok(bytes) => Ok(bytes_view(bytes)),
        Err(error) => Err(error),
    }
}

} // verus!
