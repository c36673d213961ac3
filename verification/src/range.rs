//! Byte ranges of blobs.

use crate::buffer::{bytes_clone, bytes_from_vec, bytes_len, bytes_slice, bytes_view};
use crate::error::Error;
use hyper::body::Bytes;
use vstd::prelude::*;

verus! {

/// The part of a blob that a request asks for: from the first offset up to, but excluding, the
/// second, or all of it.
pub type BlobRange = Option<(u64, u64)>;

/// A range does not end before it starts.
pub open spec fn valid_range(range: BlobRange) -> bool {
    range matches Some((start, end)) ==> start <= end
}

/// What a blob holds from `start` up to, but excluding, `end`, as far as the blob reaches.
pub open spec fn blob_slice(blob: Seq<u8>, start: int, end: int) -> Seq<u8> {
    if start >= blob.len() {
        Seq::empty()
    } else if end >= blob.len() {
        blob.skip(start)
    } else {
        blob.subrange(start, end)
    }
}

/// The part of a blob that a range asks for.
pub open spec fn blob_range(blob: Seq<u8>, range: BlobRange) -> Seq<u8> {
    match range {
        None => blob,
        Some((start, end)) => blob_slice(blob, start as int, end as int),
    }
}

/// Accepts every range but one that ends before it starts.
pub fn check_range(range: BlobRange) -> (checked: Result<(), Error>)
    ensures
        checked == (if valid_range(range) {
            Ok::<(), Error>(())
        } else {
            Err::<(), Error>(Error::BadRange)
        }),
        checked is Err <==> (range matches Some((start, end)) && start > end),
{
    match range {
        Some((start, end)) => if start > end {
            Err(Error::BadRange)
        } else {
            Ok(())
        },
        None => Ok(()),
    }
}

/// A read that yields nothing.
pub fn empty_read() -> (read: Bytes)
    ensures
        bytes_view(read) == Seq::<u8>::empty(),
{
    bytes_from_vec(Vec::new())
}

/// The part of `bytes` that a range asks for. A range that starts past the end yields nothing.
pub fn read_range(bytes: &Bytes, range: BlobRange) -> (read: Bytes)
    requires
        valid_range(range),
    ensures
        bytes_view(read) == blob_range(bytes_view(*bytes), range),
{
    match range {
        None => bytes_clone(bytes),
        Some((start, end)) => {
            let len: usize = bytes_len(bytes);
            if start > len as u64 {
                return empty_read();
            }
            let stop: usize = if end < len as u64 {
                end as usize
            } else {
                len
            };
            bytes_slice(bytes, start as usize, stop)
        },
    }
}

/// What has to be answered to a request for nothing, once the blob's size was asked for: nothing,
/// or the error that came back instead of the size.
pub fn empty_after_head(head: Result<u64, Error>) -> (read: Result<Bytes, Error>)
    ensures
        head is Ok <==> read is Ok,
        read matches Ok(bytes) ==> bytes_view(bytes) == Seq::<u8>::empty(),
        head matches Err(error) ==> read == Err::<Bytes, Error>(error),
{
    match head {
        Ok(_) => Ok(empty_read()),
        Err(error) => Err(error),
    }
}

/// A range is refused exactly when it ends before it starts.
pub proof fn law_only_reversed_ranges_are_refused(start: u64, end: u64)
    ensures
        valid_range(None),
        valid_range(Some((start, end))) <==> start <= end,
{
}

/// What a range asks for of a blob are the bytes at the offsets from its start up to, but
/// excluding, its end that the blob has, in order. Without a range that is the whole blob.
pub proof fn law_range_holds_its_bytes(blob: Seq<u8>, start: u64, end: u64, offset: int)
    requires
        start <= end,
    ensures
        blob_range(blob, None) == blob,
        ({
            let part = blob_range(blob, Some((start, end)));
            &&& start <= blob.len() && end <= blob.len() ==> part.len() == end - start
            &&& start <= blob.len() && end > blob.len() ==> part.len() == blob.len() - start
            &&& start > blob.len() ==> part.len() == 0
            &&& start <= offset < end && offset < blob.len() ==> part[offset - start]
                == blob[offset]
        }),
{
}

} // verus!
