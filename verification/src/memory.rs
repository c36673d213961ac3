//! Blobs in memory.

use crate::buffer::{bytes_from_vec, bytes_len, bytes_view};
use crate::digest::{content_hash, hash_blob, hashable};
use crate::error::Error;
use crate::range::{blob_range, check_range, read_range, valid_range, BlobRange};
use hyper::body::Bytes;
use vstd::hash_map::StringHashMap;
use vstd::prelude::*;

verus! {

/// What a provider that stores `blobs` answers when it is asked for the size of a blob.
pub open spec fn stored_head(blobs: Map<Seq<char>, Seq<u8>>, hash: Seq<char>) -> Result<u64, Error> {
    if blobs.contains_key(hash) {
        Ok(blobs[hash].len() as u64)
    } else {
        Err(Error::NotFound)
    }
}

/// What a provider that stores `blobs` answers when it is asked for a range of a blob.
pub open spec fn stored_get(
    blobs: Map<Seq<char>, Seq<u8>>,
    hash: Seq<char>,
    range: BlobRange,
) -> Result<Seq<u8>, Error> {
    if !valid_range(range) {
        Err(Error::BadRange)
    } else if blobs.contains_key(hash) {
        Ok(blob_range(blobs[hash], range))
    } else {
        Err(Error::NotFound)
    }
}

/// What a provider that stored `blobs` stores after `data` was put into it.
pub open spec fn stored_put(
    blobs: Map<Seq<char>, Seq<u8>>,
    data: Seq<u8>,
) -> Map<Seq<char>, Seq<u8>> {
    blobs.insert(content_hash(data), data)
}

/// A provider that stores blobs in memory, only used for testing.
pub struct Memory {
    data: StringHashMap<Bytes>,
}

impl View for Memory {
    type V = Map<Seq<char>, Seq<u8>>;

    /// The stored blobs, by their hashes.
    closed spec fn view(&self) -> Map<Seq<char>, Seq<u8>> {
        self.data@.map_values(|bytes: Bytes| bytes_view(bytes))
    }
}

impl Memory {
    /// Create a new, empty in-memory storage.
    pub fn new() -> (memory: Memory)
        ensures
            memory@ == Map::<Seq<char>, Seq<u8>>::empty(),
    {
        Default::default()
    }

    /// Check if a file exists and returns its size in bytes.
    pub fn head(&self, hash: &str) -> (size: Result<u64, Error>)
        ensures
            size == stored_head(self@, hash@),
    {
        match self.data.get(hash) {
            Some(bytes) => Ok(bytes_len(bytes) as u64),
            None => Err(Error::NotFound),
        }
    }

    /// Returns the data from the file with the given hash.
    pub fn get(&self, hash: &str, range: BlobRange) -> (read: Result<Bytes, Error>)
        ensures
            match stored_get(self@, hash@, range) {
                Ok(data) => read is Ok && bytes_view(read->Ok_0) == data,
                Err(error) => read == Err::<Bytes, Error>(error),
            },
    {
        match check_range(range) {
            Ok(_) => {},
            Err(error) => return Err(error),
        }
        match self.data.get(hash) {
            Some(bytes) => Ok(read_range(bytes, range)),
            None => Err(Error::NotFound),
        }
    }

    /// Adds a binary blob to storage, returning its hash.
    pub fn put(&mut self, data: Vec<u8>) -> (hash: String)
        requires
            hashable(data@),
        ensures
            hash@ == content_hash(data@),
            hash@.len() == 64,
            final(self)@ == stored_put(old(self)@, data@),
    {
        let hash: String = hash_blob(data.as_slice());
        let bytes: Bytes = bytes_from_vec(data);
        self.data.insert(hash.clone(), bytes);
        assert(self@ =~= stored_put(old(self)@, data@));
        hash
    }
}

impl Default for Memory {
    fn default() -> (memory: Memory)
        ensures
            memory@ == Map::<Seq<char>, Seq<u8>>::empty(),
    {
        let memory = Memory { data: StringHashMap::new() };
        assert(memory@ =~= Map::<Seq<char>, Seq<u8>>::empty());
        memory
    }
}

/// A blob that was put into storage is read back as it was, whole or in part, and has its size.
pub proof fn law_put_then_get(blobs: Map<Seq<char>, Seq<u8>>, data: Seq<u8>, range: BlobRange)
    ensures
        ({
            let after = stored_put(blobs, data);
            &&& stored_get(after, content_hash(data), None) == Ok::<Seq<u8>, Error>(data)
            &&& stored_head(after, content_hash(data)) == Ok::<u64, Error>(data.len() as u64)
            &&& valid_range(range) ==> stored_get(after, content_hash(data), range) == Ok::<
                Seq<u8>,
                Error,
            >(blob_range(data, range))
        }),
{
}

/// Putting a blob into storage changes nothing for any other hash, and putting it there again
/// changes nothing at all.
pub proof fn law_put_keeps_others(
    blobs: Map<Seq<char>, Seq<u8>>,
    data: Seq<u8>,
    other: Seq<char>,
    range: BlobRange,
)
    requires
        other != content_hash(data),
    ensures
        stored_get(stored_put(blobs, data), other, range) == stored_get(blobs, other, range),
        stored_head(stored_put(blobs, data), other) == stored_head(blobs, other),
        stored_put(stored_put(blobs, data), data) == stored_put(blobs, data),
{
    assert(stored_put(stored_put(blobs, data), data) =~= stored_put(blobs, data));
}

/// A read never gives more than was asked for, and all that was asked for where the blob reaches
/// that far.
pub proof fn law_read_length(blob: Seq<u8>, start: u64, end: u64)
    requires
        start <= end,
    ensures
        blob_range(blob, Some((start, end))).len() <= end - start,
        end <= blob.len() ==> blob_range(blob, Some((start, end))).len() == end - start,
        start >= blob.len() ==> blob_range(blob, Some((start, end))) == Seq::<u8>::empty(),
{
}

/// A range that ends before it starts is refused, whatever is stored. Else a blob that is not
/// stored is not found, and nothing is stored at first.
pub proof fn law_storage_reports_failures(
    blobs: Map<Seq<char>, Seq<u8>>,
    hash: Seq<char>,
    start: u64,
    end: u64,
)
    ensures
        start > end ==> stored_get(blobs, hash, Some((start, end))) == Err::<Seq<u8>, Error>(
            Error::BadRange,
        ),
        start <= end && !blobs.contains_key(hash) ==> stored_get(blobs, hash, Some((start, end)))
            == Err::<Seq<u8>, Error>(Error::NotFound),
        !blobs.contains_key(hash) ==> {
            &&& stored_get(blobs, hash, None) == Err::<Seq<u8>, Error>(Error::NotFound)
            &&& stored_head(blobs, hash) == Err::<u64, Error>(Error::NotFound)
        },
        blobs.contains_key(hash) ==> {
            &&& stored_get(blobs, hash, None) == Ok::<Seq<u8>, Error>(blobs[hash])
            &&& stored_head(blobs, hash) == Ok::<u64, Error>(blobs[hash].len() as u64)
        },
{
}

} // verus!
