//! Providers that keep their blobs elsewhere: what they ask of an object store or of a file
//! system, and what they make of the replies.
//!
//! A blob is stored under a key that is made from its hash. The functions here take that key, or
//! the error of a hash that no key can be made from.

use crate::digest::{
    base64_encoded, checksum_of_hash, content_hash, fed, hex_decoded, law_hash_is_of_whole,
    law_hex_round_trip, sha256,
};
use crate::error::Error;
use crate::memory::{stored_get, stored_head};
use crate::range::{blob_range, check_range, valid_range, BlobRange};
use crate::text::{
    decimal, law_number_round_trip, lemma_number_behind_separator, lemma_number_has_no_minus,
    parsed_number, push_numeral,
};
use vstd::prelude::*;

verus! {

/// An object in a bucket.
pub struct ObjectRef {
    /// The bucket's name.
    pub bucket: String,
    /// The object's key.
    pub key: String,
}

/// The reply to a request for the metadata of an object.
pub enum HeadReply {
    /// The object exists, and has this length.
    Found { content_length: i64 },
    /// The store refused; whether because there is no such object, and in which words.
    Service { not_found: bool, message: String },
    /// There was no reply, for this reason.
    Failed(String),
}

/// The reply to a request for an object.
pub enum GetReply {
    /// The object's data follows.
    Body,
    /// The store refused; whether because there is no such object, with which code, and in which
    /// words.
    Service { no_such_key: bool, code: Option<String>, message: String },
    /// There was no reply, for this reason.
    Failed(String),
}

/// What is to be asked of the store for a read.
pub enum GetRequest {
    /// Only whether the object exists, since nothing of it is asked for.
    HeadOnly,
    /// The object, or the range of it that this header names.
    Object { object: ObjectRef, range: Option<String> },
}

/// What a read is answered.
#[derive(Clone, Copy, PartialEq, Eq, Structural)]
pub enum GetAnswer {
    /// The data of the reply.
    Stream,
    /// Nothing.
    Empty,
}

/// What is to be sent to the store for a new blob.
pub struct PutRequest {
    /// Where the blob goes.
    pub object: ObjectRef,
    /// The checksum that the store is to verify.
    pub checksum_sha256: String,
}

/// `n` as an unsigned number of the same bits.
pub open spec fn as_unsigned(n: i64) -> u64 {
    if n >= 0 {
        n as u64
    } else {
        (n + 0x1_0000_0000_0000_0000) as u64
    }
}

/// What a request for the size of a blob is answered, from the reply about its object.
pub open spec fn head_answer(reply: HeadReply) -> Result<u64, Error> {
    match reply {
        HeadReply::Found { content_length } => Ok(as_unsigned(content_length)),
        HeadReply::Service { not_found: true, message } => Err(Error::NotFound),
        HeadReply::Service { not_found: false, message } => Err(Error::Internal(message)),
        HeadReply::Failed(message) => Err(Error::Internal(message)),
    }
}

/// What a read is answered, from the reply about its object.
pub open spec fn get_answer(reply: GetReply) -> Result<GetAnswer, Error> {
    match reply {
        GetReply::Body => Ok(GetAnswer::Stream),
        GetReply::Service { no_such_key, code, message } => if no_such_key {
            Err(Error::NotFound)
        } else if code is Some && code->0@ == "InvalidRange"@ {
            Ok(GetAnswer::Empty)
        } else {
            Err(Error::Internal(message))
        },
        GetReply::Failed(message) => Err(Error::Internal(message)),
    }
}

/// What a read gives in the end, where `body` is the data of the reply, if there is any.
pub open spec fn bucket_read(reply: GetReply, body: Seq<u8>) -> Result<Seq<u8>, Error> {
    match get_answer(reply) {
        Ok(GetAnswer::Stream) => Ok(body),
        Ok(GetAnswer::Empty) => Ok(Seq::empty()),
        Err(error) => Err(error),
    }
}

/// The header that asks for the bytes from `start` up to, but excluding, `end`.
pub open spec fn range_header(start: u64, end: u64) -> Seq<char> {
    "bytes="@ + decimal(start as nat) + "-"@ + decimal((end - 1) as nat)
}

/// Whether a range asks for nothing.
pub open spec fn zero_length(range: BlobRange) -> bool {
    range matches Some((start, end)) && start == end
}

/// A provider that stores blobs in an S3 bucket.
pub struct S3 {
    /// The bucket's name.
    pub bucket: String,
}

impl S3 {
    /// Creates a new S3 provider for a bucket, given whether the bucket can be had. Where it
    /// cannot, this says so.
    pub fn new(bucket: &str, available: bool) -> (s3: Result<S3, String>)
        ensures
            s3 is Ok <==> available,
            s3 matches Ok(s3) ==> s3.bucket@ == bucket@,
            s3 matches Err(message) ==> message@ == "unable to create provider for S3 bucket "@
                + bucket@,
    {
        if available {
            Ok(S3 { bucket: bucket.to_owned() })
        } else {
            let mut message: String = "unable to create provider for S3 bucket ".to_owned();
            message.append(bucket);
            Err(message)
        }
    }

    /// The object whose metadata tells the size of a blob.
    pub fn head(&self, key: Result<String, Error>) -> (object: Result<ObjectRef, Error>)
        ensures
            match key {
                Ok(key) => {
                    &&& object is Ok
                    &&& object->Ok_0.bucket@ == self.bucket@
                    &&& object->Ok_0.key@ == key@
                },
                Err(error) => object == Err::<ObjectRef, Error>(error),
            },
    {
        match key {
            Ok(key) => Ok(ObjectRef { bucket: self.bucket.clone(), key }),
            Err(error) => Err(error),
        }
    }

    /// The size of a blob, from the reply about its object.
    pub fn head_reply(reply: HeadReply) -> (size: Result<u64, Error>)
        ensures
            size == (match reply {
                HeadReply::Found { content_length } => Ok(as_unsigned(content_length)),
                HeadReply::Service { not_found: true, message } => Err(Error::NotFound),
                HeadReply::Service { not_found: false, message } => Err(Error::Internal(message)),
                HeadReply::Failed(message) => Err(Error::Internal(message)),
            }),
            size == head_answer(reply),
            reply matches HeadReply::Found { content_length } ==> content_length >= 0 ==> size is Ok
                && size->Ok_0 as int == content_length as int,
    {
        match reply {
            HeadReply::Found { content_length } => {
                assert(content_length < 0 ==> #[verifier::truncate] (content_length as u64)
                    == content_length + 0x1_0000_0000_0000_0000) by (bit_vector);
                Ok(#[verifier::truncate] (content_length as u64))
            },
            HeadReply::Service { not_found, message } => if not_found {
                Err(Error::NotFound)
            } else {
                Err(Error::Internal(message))
            },
            HeadReply::Failed(message) => Err(Error::Internal(message)),
        }
    }

    /// What is to be asked of the store for a read of a blob.
    pub fn get(&self, key: Result<String, Error>, range: BlobRange) -> (request: Result<
        GetRequest,
        Error,
    >)
        ensures
            !valid_range(range) ==> request == Err::<GetRequest, Error>(Error::BadRange),
            zero_length(range) ==> request == Ok::<GetRequest, Error>(GetRequest::HeadOnly),
            request matches Ok(GetRequest::HeadOnly) ==> (range matches Some((start, end)) && start
                == end),
            request matches Err(error) ==> error == Error::BadRange || key == Err::<String, Error>(
                error,
            ),
            valid_range(range) && !zero_length(range) ==> match key {
                Err(error) => request == Err::<GetRequest, Error>(error),
                Ok(key) => {
                    &&& request matches Ok(GetRequest::Object { object, range: header })
                    &&& object.bucket@ == self.bucket@
                    &&& object.key@ == key@
                    &&& match range {
                        Some((start, end)) => header matches Some(header) && header@
                            == range_header(start, end),
                        None => header is None,
                    }
                },
            },
    {
        match check_range(range) {
            Ok(_) => {},
            Err(error) => return Err(error),
        }
        let header: Option<String> = match range {
            Some((start, end)) => {
                if start == end {
                    // Ranges of length zero cannot be asked for directly.
                    return Ok(GetRequest::HeadOnly);
                }
                let mut header: String = "bytes=".to_owned();
                push_numeral(&mut header, start, 10);
                header.append("-");
                push_numeral(&mut header, end - 1, 10);
                Some(header)
            },
            None => None,
        };
        match self.head(key) {
            Ok(object) => Ok(GetRequest::Object { object, range: header }),
            Err(error) => Err(error),
        }
    }

    /// What a read is answered, from the reply about its object. The store throws errors if the
    /// start of the range is at or after the end of the blob, where nothing is to be answered.
    pub fn get_reply(reply: GetReply) -> (answer: Result<GetAnswer, Error>)
        ensures
            answer == get_answer(reply),
            match reply {
                GetReply::Body => answer == Ok::<GetAnswer, Error>(GetAnswer::Stream),
                GetReply::Service { no_such_key, code, message } => if no_such_key {
                    answer == Err::<GetAnswer, Error>(Error::NotFound)
                } else if code is Some && code->0@ == "InvalidRange"@ {
                    answer == Ok::<GetAnswer, Error>(GetAnswer::Empty)
                } else {
                    answer == Err::<GetAnswer, Error>(Error::Internal(message))
                },
                GetReply::Failed(message) => answer == Err::<GetAnswer, Error>(
                    Error::Internal(message),
                ),
            },
    {
        match reply {
            GetReply::Body => Ok(GetAnswer::Stream),
            GetReply::Service { no_such_key, code, message } => {
                if no_such_key {
                    return Err(Error::NotFound);
                }
                match code {
                    Some(code) => if code == "InvalidRange".to_owned() {
                        Ok(GetAnswer::Empty)
                    } else {
                        Err(Error::Internal(message))
                    },
                    None => Err(Error::Internal(message)),
                }
            },
            GetReply::Failed(message) => Err(Error::Internal(message)),
        }
    }

    /// What is to be sent to the store for a new blob with the given hash.
    pub fn put(&self, hash: &str, key: Result<String, Error>) -> (request: Result<
        PutRequest,
        Error,
    >)
        requires
            hex_decoded(hash@) is Some,
            hash@.len() <= usize::MAX / 2,
        ensures
            match key {
                Ok(key) => {
                    &&& request is Ok
                    &&& request->Ok_0.object.bucket@ == self.bucket@
                    &&& request->Ok_0.object.key@ == key@
                    &&& request->Ok_0.checksum_sha256@ == base64_encoded(hex_decoded(hash@)->0)
                },
                Err(error) => request == Err::<PutRequest, Error>(error),
            },
    {
        match self.head(key) {
            Ok(object) => Ok(PutRequest { object, checksum_sha256: checksum_of_hash(hash) }),
            Err(error) => Err(error),
        }
    }
}

/// A file in a directory.
pub struct FilePath {
    /// The directory.
    pub dir: String,
    /// The path of the file in the directory.
    pub key: String,
}

/// The reply of the file system.
pub enum FileReply<T> {
    /// It did what it was asked for, with this result.
    Done(T),
    /// There is no such file.
    NotFound,
    /// It failed, for this reason.
    Failed(String),
}

/// What came of reading a new blob from its source.
pub enum Spooled {
    /// It was read, and has this hash; it goes under this key, or no key can be made.
    Whole { hash: String, key: Result<String, Error> },
    /// It could not be read, for this reason.
    Failed(String),
}

/// Where a new blob is to be stored.
pub struct LocalPut {
    /// The file that the blob is to be copied to.
    pub file: FilePath,
    /// The hash of the blob.
    pub hash: String,
}

/// What a request is answered, from the reply of the file system.
pub open spec fn file_answer<T>(reply: FileReply<T>) -> Result<T, Error> {
    match reply {
        FileReply::Done(result) => Ok(result),
        FileReply::NotFound => Err(Error::NotFound),
        FileReply::Failed(message) => Err(Error::Internal(message)),
    }
}

/// What storing a blob is answered.
pub open spec fn put_answer<H>(hash: H, stored: Result<(), String>) -> Result<H, Error> {
    match stored {
        Ok(_) => Ok(hash),
        Err(message) => Err(Error::Internal(message)),
    }
}

/// A provider that stores blobs in a local directory.
///
/// This is especially useful when targeting network file systems mounts.
pub struct LocalDir {
    /// The directory.
    pub dir: String,
}

impl LocalDir {
    /// Creates a new local directory provider.
    pub fn new(path: &str) -> (local: LocalDir)
        ensures
            local.dir@ == path@,
    {
        LocalDir { dir: path.to_owned() }
    }

    /// The file that a blob is stored in, whose length is the blob's size.
    pub fn head(&self, key: Result<String, Error>) -> (file: Result<FilePath, Error>)
        ensures
            match key {
                Ok(key) => {
                    &&& file is Ok
                    &&& file->Ok_0.dir@ == self.dir@
                    &&& file->Ok_0.key@ == key@
                },
                Err(error) => file == Err::<FilePath, Error>(error),
            },
    {
        match key {
            Ok(key) => Ok(FilePath { dir: self.dir.clone(), key }),
            Err(error) => Err(error),
        }
    }

    /// The file that is to be opened to read a range of a blob.
    pub fn get(&self, key: Result<String, Error>, range: BlobRange) -> (file: Result<
        FilePath,
        Error,
    >)
        ensures
            !valid_range(range) ==> file == Err::<FilePath, Error>(Error::BadRange),
            valid_range(range) ==> match key {
                Ok(key) => {
                    &&& file is Ok
                    &&& file->Ok_0.dir@ == self.dir@
                    &&& file->Ok_0.key@ == key@
                },
                Err(error) => file == Err::<FilePath, Error>(error),
            },
    {
        match check_range(range) {
            Ok(_) => self.head(key),
            Err(error) => Err(error),
        }
    }

    /// Where a new blob is to be stored, and under which hash. A blob that could not be read, or
    /// that no key can be made for, is not stored.
    pub fn put(&self, spooled: Spooled) -> (put: Result<LocalPut, Error>)
        ensures
            match spooled {
                Spooled::Whole { hash, key: Ok(key) } => {
                    &&& put is Ok
                    &&& put->Ok_0.file.dir@ == self.dir@
                    &&& put->Ok_0.file.key@ == key@
                    &&& put->Ok_0.hash@ == hash@
                },
                Spooled::Whole { hash, key: Err(error) } => put == Err::<LocalPut, Error>(error),
                Spooled::Failed(message) => put == Err::<LocalPut, Error>(Error::Internal(message)),
            },
    {
        match spooled {
            Spooled::Whole { hash, key } => match self.head(key) {
                Ok(file) => Ok(LocalPut { file, hash }),
                Err(error) => Err(error),
            },
            Spooled::Failed(message) => Err(Error::Internal(message)),
        }
    }

    /// What a request is answered, from the reply of the file system.
    pub fn reply<T>(reply: FileReply<T>) -> (answer: Result<T, Error>)
        ensures
            answer == file_answer(reply),
            match reply {
                FileReply::Done(result) => answer == Ok::<T, Error>(result),
                FileReply::NotFound => answer == Err::<T, Error>(Error::NotFound),
                FileReply::Failed(message) => answer == Err::<T, Error>(Error::Internal(message)),
            },
    {
        match reply {
            FileReply::Done(result) => Ok(result),
            FileReply::NotFound => Err(Error::NotFound),
            FileReply::Failed(message) => Err(Error::Internal(message)),
        }
    }
}

/// What storing a blob is answered: its hash, or why it was not stored.
pub fn put_reply(hash: String, stored: Result<(), String>) -> (answer: Result<String, Error>)
    ensures
        answer == put_answer(hash, stored),
        match stored {
            Ok(_) => answer == Ok::<String, Error>(hash),
            Err(message) => answer == Err::<String, Error>(Error::Internal(message)),
        },
{
    match stored {
        Ok(_) => Ok(hash),
        Err(message) => Err(Error::Internal(message)),
    }
}

/// What a file system replies about the file at `path`, where `files` are the files that there
/// are, by their paths.
pub open spec fn file_at(files: Map<Seq<char>, Seq<u8>>, path: Seq<char>) -> FileReply<Seq<u8>> {
    if files.contains_key(path) {
        FileReply::Done(files[path])
    } else {
        FileReply::NotFound
    }
}

/// What a directory that holds `files` answers for the size of the blob that is stored under
/// `key`.
pub open spec fn local_head(
    files: Map<Seq<char>, Seq<u8>>,
    key: Result<Seq<char>, Error>,
) -> Result<u64, Error> {
    match key {
        Err(error) => Err(error),
        Ok(path) => match file_answer(file_at(files, path)) {
            Ok(data) => Ok(data.len() as u64),
            Err(error) => Err(error),
        },
    }
}

/// What a directory that holds `files` answers for a range of the blob that is stored under `key`.
pub open spec fn local_get(
    files: Map<Seq<char>, Seq<u8>>,
    key: Result<Seq<char>, Error>,
    range: BlobRange,
) -> Result<Seq<u8>, Error> {
    if !valid_range(range) {
        Err(Error::BadRange)
    } else {
        match key {
            Err(error) => Err(error),
            Ok(path) => match file_answer(file_at(files, path)) {
                Ok(data) => Ok(blob_range(data, range)),
                Err(error) => Err(error),
            },
        }
    }
}

/// The files of a directory that held `files`, and what is answered, once a blob was put there.
/// Reading the blob gave `source`, part by part: each part goes into the hash and behind the parts
/// before it. `key_of` makes a key from a hash, and `copied` is how storing the file ended. A file
/// that could not be stored leaves the directory as it was.
pub open spec fn local_put(
    files: Map<Seq<char>, Seq<u8>>,
    source: Result<Seq<Seq<u8>>, String>,
    key_of: spec_fn(Seq<char>) -> Result<Seq<char>, Error>,
    copied: Result<(), String>,
) -> (Map<Seq<char>, Seq<u8>>, Result<Seq<char>, Error>) {
    match source {
        Err(message) => (files, Err(Error::Internal(message))),
        Ok(parts) => {
            let hash = content_hash(fed(Seq::empty(), parts));
            match key_of(hash) {
                Err(error) => (files, Err(error)),
                Ok(path) => (
                    if copied is Ok {
                        files.insert(path, parts.flatten())
                    } else {
                        files
                    },
                    put_answer(hash, copied),
                ),
            }
        },
    }
}

/// A blob that was put into a directory is named by its content, however its source cut it into
/// parts. It is read back as it was, whole or in part, and has its size; no other blob changes, and
/// putting it there again changes nothing. Where putting fails, no blob is added or changed.
pub proof fn law_local_put_then_get(
    files: Map<Seq<char>, Seq<u8>>,
    source: Result<Seq<Seq<u8>>, String>,
    key_of: spec_fn(Seq<char>) -> Result<Seq<char>, Error>,
    copied: Result<(), String>,
    other: Seq<char>,
    range: BlobRange,
)
    ensures
        ({
            let (after, answer) = local_put(files, source, key_of, copied);
            let data = source->Ok_0.flatten();
            &&& answer is Ok <==> source is Ok && key_of(content_hash(data)) is Ok && copied is Ok
            &&& answer is Err ==> after == files
            &&& answer matches Ok(hash) ==> {
                &&& hash == content_hash(data)
                &&& local_head(after, key_of(hash)) == Ok::<u64, Error>(data.len() as u64)
                &&& local_get(after, key_of(hash), None) == Ok::<Seq<u8>, Error>(data)
                &&& local_get(after, key_of(hash), range) == if valid_range(range) {
                    Ok::<Seq<u8>, Error>(blob_range(data, range))
                } else {
                    Err(Error::BadRange)
                }
                &&& key_of(other) != key_of(hash) ==> {
                    &&& local_head(after, key_of(other)) == local_head(files, key_of(other))
                    &&& local_get(after, key_of(other), range) == local_get(
                        files,
                        key_of(other),
                        range,
                    )
                }
                &&& local_put(after, source, key_of, copied) == (after, answer)
            }
        }),
{
    if let Ok(parts) = source {
        law_hash_is_of_whole(parts);
        let after = local_put(files, source, key_of, copied).0;
        assert(local_put(after, source, key_of, copied).0 =~= after);
    }
}

/// A blob that is named by its content hash can be sent to the store, with the encoding of its
/// SHA-256 for a checksum.
pub proof fn law_content_hash_can_be_put(data: Seq<u8>)
    ensures
        hex_decoded(content_hash(data)) == Some(sha256(data)),
{
    law_hex_round_trip(sha256(data));
}

/// Different ranges are asked for by different headers.
pub proof fn law_range_headers_are_distinct(start: u64, end: u64, from: u64, to: u64)
    requires
        start < end,
        from < to,
        range_header(start, end) == range_header(from, to),
    ensures
        start == from,
        end == to,
{
    let header = range_header(start, end);
    let a = "bytes="@ + decimal(start as nat);
    let b = "bytes="@ + decimal(from as nat);
    reveal_strlit("bytes=");
    reveal_strlit("-");
    assert("-"@ =~= seq!['-']);
    lemma_number_behind_separator(header, '-', 10, a, (end - 1) as nat, b, (to - 1) as nat);
    assert("bytes="@ =~= "bytes="@.take(5) + seq!['=']);
    lemma_number_behind_separator(
        a,
        '=',
        10,
        "bytes="@.take(5),
        start as nat,
        "bytes="@.take(5),
        from as nat,
    );
}

/// The size that is answered is the length that the store reports, for every length that a blob can
/// have. A length below zero is taken modulo 2^64.
pub proof fn law_reported_length_is_size(length: i64)
    ensures
        length >= 0 ==> as_unsigned(length) as int == length as int,
        length < 0 ==> as_unsigned(length) as int == length as int + 0x1_0000_0000_0000_0000,
{
}

/// A blob has the same size in a bucket, in memory and in a directory: the number of its bytes.
pub proof fn law_size_is_number_of_bytes(
    blobs: Map<Seq<char>, Seq<u8>>,
    files: Map<Seq<char>, Seq<u8>>,
    hash: Seq<char>,
    path: Seq<char>,
    data: Seq<u8>,
)
    requires
        data.len() <= i64::MAX,
    ensures
        as_unsigned(data.len() as i64) as int == data.len(),
        stored_head(blobs.insert(hash, data), hash) matches Ok(size) && size as int == data.len(),
        local_head(files.insert(path, data), Ok(path)) matches Ok(size) && size as int
            == data.len(),
        !blobs.contains_key(hash) ==> stored_head(blobs, hash) == Err::<u64, Error>(
            Error::NotFound,
        ),
        !files.contains_key(path) ==> local_head(files, Ok(path)) == Err::<u64, Error>(
            Error::NotFound,
        ),
{
}

/// The header of a range is read back as the range: it is `bytes=`, a number, `-` and a number, and
/// in whichever way it is taken apart so, the first number is the first offset and the second one
/// the last offset. What a blob holds from the first of these offsets through the second is the
/// part of the blob that the range asks for.
pub proof fn law_range_header_is_read_back(
    start: u64,
    end: u64,
    first: Seq<char>,
    last: Seq<char>,
    blob: Seq<u8>,
)
    requires
        start < end,
    ensures
        exists|a: Seq<char>, b: Seq<char>|
            {
                &&& range_header(start, end) == #[trigger] ("bytes="@ + a + "-"@ + b)
                &&& parsed_number(a) == Some(start)
                &&& parsed_number(b) == Some((end - 1) as u64)
            },
        range_header(start, end) == "bytes="@ + first + "-"@ + last && parsed_number(first) is Some
            && parsed_number(last) is Some ==> {
            let from = parsed_number(first)->0 as int;
            let through = parsed_number(last)->0 as int;
            &&& from == start
            &&& through == end - 1
            &&& blob_range(blob, Some((start, end))) == if from >= blob.len() {
                Seq::<u8>::empty()
            } else if through < blob.len() {
                blob.subrange(from, through + 1)
            } else {
                blob.subrange(from, blob.len() as int)
            }
        },
{
    let a = decimal(start as nat);
    let b = decimal((end - 1) as nat);
    let header = range_header(start, end);
    reveal_strlit("bytes=");
    reveal_strlit("-");
    law_number_round_trip(start);
    law_number_round_trip((end - 1) as u64);
    assert(header == "bytes="@ + a + "-"@ + b);
    if header == "bytes="@ + first + "-"@ + last && parsed_number(first) is Some && parsed_number(
        last,
    ) is Some {
        let text = "bytes="@ + first + "-"@ + last;
        let m = a.len() as int;
        let k = first.len() as int;
        assert(header[6 + m] == '-');
        assert(text[6 + k] == '-');
        if k < m {
            assert(header[6 + k] == a[k]);
            lemma_number_has_no_minus(a, k);
        } else if m < k {
            assert(text[6 + m] == first[m]);
            lemma_number_has_no_minus(first, m);
        }
        assert(header.subrange(6, 6 + m) =~= a);
        assert(text.subrange(6, 6 + m) =~= first);
        assert(header.skip(7 + m) =~= b);
        assert(text.skip(7 + m) =~= last);
        assert(blob_range(blob, Some((start, end))) =~= if start >= blob.len() {
            Seq::<u8>::empty()
        } else if end - 1 < blob.len() {
            blob.subrange(start as int, end as int)
        } else {
            blob.subrange(start as int, blob.len() as int)
        });
    }
}

/// Only a range that ends where it starts asks for nothing.
pub proof fn law_only_equal_bounds_ask_for_nothing(start: u64, end: u64)
    ensures
        !zero_length(None),
        zero_length(Some((start, end))) <==> start == end,
{
}

/// A blob that a directory does not have is not found there, whichever valid range of it is asked
/// for. A file system that fails is reported as it says, and so is a hash that has no key.
pub proof fn law_directory_reports_failures(
    files: Map<Seq<char>, Seq<u8>>,
    path: Seq<char>,
    start: u64,
    end: u64,
    message: String,
    error: Error,
)
    ensures
        !files.contains_key(path) && start <= end ==> local_get(files, Ok(path), Some((start, end)))
            == Err::<Seq<u8>, Error>(Error::NotFound),
        !files.contains_key(path) ==> local_get(files, Ok(path), None) == Err::<Seq<u8>, Error>(
            Error::NotFound,
        ),
        start > end ==> local_get(files, Ok(path), Some((start, end))) == Err::<Seq<u8>, Error>(
            Error::BadRange,
        ),
        local_get(files, Err(error), None) == Err::<Seq<u8>, Error>(error),
        local_head(files, Err(error)) == Err::<u64, Error>(error),
        file_answer(FileReply::<Seq<u8>>::Failed(message)) == Err::<Seq<u8>, Error>(
            Error::Internal(message),
        ),
        put_answer(path, Err(message)) == Err::<Seq<char>, Error>(Error::Internal(message)),
{
}

/// A read from a bucket gives what a read of the stored blob gives. A store that has the blob sends
/// the bytes that it has from the first offset on, and refuses a range that starts at or behind
/// the end of the blob, where there is nothing to read; one that does not have it says so. Every
/// other failure is reported as the store words it.
pub proof fn law_bucket_read_is_direct_read(
    blobs: Map<Seq<char>, Seq<u8>>,
    hash: Seq<char>,
    start: u64,
    end: u64,
    code: Option<String>,
    message: String,
    body: Seq<u8>,
)
    requires
        start < end,
    ensures
        blobs.contains_key(hash) ==> {
            let blob = blobs[hash];
            &&& bucket_read(GetReply::Body, blob) == stored_get(blobs, hash, None)
            &&& start < blob.len() ==> bucket_read(
                GetReply::Body,
                blob.subrange(
                    start as int,
                    if end < blob.len() {
                        end as int
                    } else {
                        blob.len() as int
                    },
                ),
            ) == stored_get(blobs, hash, Some((start, end)))
            &&& start >= blob.len() && code is Some && code->0@ == "InvalidRange"@ ==> bucket_read(
                GetReply::Service { no_such_key: false, code, message },
                body,
            ) == stored_get(blobs, hash, Some((start, end)))
        },
        !blobs.contains_key(hash) ==> bucket_read(
            GetReply::Service { no_such_key: true, code, message },
            body,
        ) == stored_get(blobs, hash, Some((start, end))),
        !(code is Some && code->0@ == "InvalidRange"@) ==> bucket_read(
            GetReply::Service { no_such_key: false, code, message },
            body,
        ) == Err::<Seq<u8>, Error>(Error::Internal(message)),
        bucket_read(GetReply::Failed(message), body) == Err::<Seq<u8>, Error>(
            Error::Internal(message),
        ),
{
    if blobs.contains_key(hash) {
        let blob = blobs[hash];
        if start < blob.len() {
            assert(blob.subrange(
                start as int,
                if end < blob.len() { end as int } else { blob.len() as int },
            ) =~= blob_range(blob, Some((start, end))));
        }
    }
}

/// The size that a bucket answers is the size of the stored blob, up to the largest length that a
/// store can report; a blob that the store does not have is not found, and every other failure is
/// reported as the store words it.
pub proof fn law_bucket_size_is_stored_size(
    blobs: Map<Seq<char>, Seq<u8>>,
    hash: Seq<char>,
    message: String,
)
    ensures
        blobs.contains_key(hash) && blobs[hash].len() <= i64::MAX ==> head_answer(
            HeadReply::Found { content_length: blobs[hash].len() as i64 },
        ) == stored_head(blobs, hash),
        !blobs.contains_key(hash) ==> head_answer(HeadReply::Service { not_found: true, message })
            == stored_head(blobs, hash),
        head_answer(HeadReply::Service { not_found: false, message }) == Err::<u64, Error>(
            Error::Internal(message),
        ),
        head_answer(HeadReply::Failed(message)) == Err::<u64, Error>(Error::Internal(message)),
{
}

} // verus!
