//! Reading a range of a blob page by page.
//!
//! Page `0` of a blob holds its size. Page `n`, from `1` on, holds the bytes from
//! `(n - 1) * pagesize` up to `n * pagesize`.

use crate::buffer::{bytes_len, bytes_slice, bytes_view};
use crate::error::Error;
use crate::range::{blob_range, blob_slice, check_range, empty_read, valid_range, BlobRange};
use hyper::body::Bytes;
use vstd::prelude::*;

verus! {

/// The smallest page size.
pub const MIN_PAGESIZE: u64 = 4096;

/// The page that holds the byte at `offset`.
pub open spec fn page_at(offset: int, pagesize: int) -> int {
    1 + offset / pagesize
}

/// Where page `n` starts.
pub open spec fn page_start(n: int, pagesize: int) -> int {
    (n - 1) * pagesize
}

/// The bytes of page `n` of a blob.
pub open spec fn blob_page(blob: Seq<u8>, pagesize: int, n: int) -> Seq<u8> {
    blob_slice(blob, page_start(n, pagesize), page_start(n + 1, pagesize))
}

/// The bounds of a range; a request without one asks for everything there can be.
pub open spec fn range_bounds(range: BlobRange) -> (u64, u64) {
    match range {
        Some(bounds) => bounds,
        None => (0, u64::MAX),
    }
}

/// The byte range that page `n` covers, as far as offsets reach.
pub open spec fn page_bounds(n: int, pagesize: int) -> (int, int) {
    (
        page_start(n, pagesize),
        if page_start(n + 1, pagesize) <= u64::MAX {
            page_start(n + 1, pagesize)
        } else {
            u64::MAX as int
        },
    )
}

/// The byte range that page `n` covers, as far as offsets reach.
pub fn chunk_bounds(n: u64, pagesize: u64) -> (bounds: (u64, u64))
    requires
        n > 0,
        (n - 1) * pagesize <= u64::MAX,
    ensures
        (bounds.0 as int, bounds.1 as int) == page_bounds(n as int, pagesize as int),
{
    assert((n - 1) * pagesize >= 0) by (nonlinear_arith)
        requires
            n > 0,
    ;
    assert(n * pagesize == (n - 1) * pagesize + pagesize) by (nonlinear_arith);
    let lo: u64 = (n - 1) * pagesize;
    let hi: u64 = if pagesize <= u64::MAX - lo {
        lo + pagesize
    } else {
        u64::MAX
    };
    (lo, hi)
}

/// A read of at least one byte, divided into pages.
#[derive(Clone, Copy)]
pub struct ChunkedRead {
    /// The first offset to read.
    pub start: u64,
    /// The offset to stop at.
    pub end: u64,
    /// The page that holds the first byte.
    pub chunk_begin: u64,
    /// The page that holds the last byte.
    pub chunk_end: u64,
    /// The size of a page.
    pub pagesize: u64,
}

impl ChunkedRead {
    /// The pages are those that hold the first and the last byte.
    pub open spec fn wf(&self) -> bool {
        &&& self.pagesize >= MIN_PAGESIZE
        &&& self.start < self.end
        &&& self.chunk_begin == page_at(self.start as int, self.pagesize as int)
        &&& self.chunk_end == page_at(self.end - 1, self.pagesize as int)
    }
}

/// How a request is going to be answered.
pub enum ReadPlan {
    /// Nothing is asked for, and nothing is to be answered where the blob exists.
    HeadOnly,
    /// The answer is in these pages.
    Chunks(ChunkedRead),
}

/// Decides how to answer a request for `range`.
pub fn plan_read(range: BlobRange, pagesize: u64) -> (plan: Result<ReadPlan, Error>)
    requires
        pagesize >= MIN_PAGESIZE,
    ensures
        plan is Ok <==> valid_range(range),
        plan matches Err(error) ==> error == Error::BadRange,
        plan matches Ok(plan) ==> match plan {
            ReadPlan::HeadOnly => range_bounds(range).0 == range_bounds(range).1,
            ReadPlan::Chunks(read) => {
                &&& read.wf()
                &&& (read.start, read.end) == range_bounds(range)
                &&& read.pagesize == pagesize
            },
        },
{
    let (start, end): (u64, u64) = match range {
        Some(bounds) => bounds,
        None => (0, u64::MAX),
    };
    match check_range(range) {
        Ok(_) => {},
        Err(error) => return Err(error),
    }
    if start == end {
        // The range has length 0, so it cannot be divided into pages.
        return Ok(ReadPlan::HeadOnly);
    }
    proof {
        lemma_page_at_bound(start as int, pagesize as int);
        lemma_page_at_bound(end - 1, pagesize as int);
    }
    let chunk_begin: u64 = 1 + start / pagesize;
    let chunk_end: u64 = 1 + (end - 1) / pagesize;
    Ok(ReadPlan::Chunks(ChunkedRead { start, end, chunk_begin, chunk_end, pagesize }))
}

/// A page number is at most half of what a page number can be.
proof fn lemma_page_at_bound(offset: int, pagesize: int)
    requires
        0 <= offset <= u64::MAX,
        pagesize >= MIN_PAGESIZE,
    ensures
        1 <= page_at(offset, pagesize) <= u64::MAX / 2,
{
    assert(0 <= offset / pagesize <= offset / 4096) by (nonlinear_arith)
        requires
            0 <= offset,
            pagesize >= 4096,
    ;
}

/// Where in its page the first byte of a read stands.
pub open spec fn first_offset(read: ChunkedRead) -> int {
    read.start - page_start(read.chunk_begin as int, read.pagesize as int)
}

/// Whether the first page answers the read on its own: the blob ends in it, or the read does.
pub open spec fn first_suffices(read: ChunkedRead, first: Seq<u8>) -> bool {
    ||| first.len() < read.pagesize
    ||| first.len() - first_offset(read) >= read.end - read.start
}

/// What a read takes from its first page.
pub open spec fn first_part(read: ChunkedRead, first: Seq<u8>) -> Seq<u8> {
    blob_slice(first, first_offset(read), first_offset(read) + read.end - read.start)
}

/// What a read takes from a later page, when `remaining` bytes are still asked for.
pub open spec fn next_part(page: Seq<u8>, remaining: int) -> Seq<u8> {
    if page.len() > remaining {
        page.take(remaining)
    } else {
        page
    }
}

/// The answer to a read, once its first page is there.
pub enum FirstRead {
    /// All of the answer.
    Whole(Bytes),
    /// The answer goes on in later pages.
    Stream(ChunkStream),
}

/// The state of a stream that answers a read of more than one page.
pub struct StreamView {
    /// What the first page contributes, as long as it was not handed out.
    pub first: Option<Seq<u8>>,
    /// The next page to fetch.
    pub next: int,
    /// The last page to fetch.
    pub last: int,
    /// How many bytes the pages from `next` on still have to contribute.
    pub remaining: int,
    /// Whether a page contributed nothing, which ends the stream.
    pub ended: bool,
}

impl StreamView {
    /// Whether there is nothing left to hand out or to fetch.
    pub open spec fn finished(self) -> bool {
        self.first is None && (self.ended || self.next > self.last)
    }

    /// The state after the page `next` came in.
    pub open spec fn supplied(self, page: Seq<u8>) -> StreamView {
        let part = next_part(page, self.remaining);
        StreamView {
            next: self.next + 1,
            remaining: self.remaining - part.len(),
            ended: part.len() == 0,
            ..self
        }
    }

    /// The state after the page `next` could not be had.
    pub open spec fn failed(self) -> StreamView {
        StreamView { next: self.next + 1, ..self }
    }
}

/// A stream that answers a read of more than one page.
pub struct ChunkStream {
    first: Option<Bytes>,
    next: u64,
    last: u64,
    remaining: u64,
    ended: bool,
}

impl View for ChunkStream {
    type V = StreamView;

    closed spec fn view(&self) -> StreamView {
        StreamView {
            first: match self.first {
                Some(bytes) => Some(bytes_view(bytes)),
                None => None,
            },
            next: self.next as int,
            last: self.last as int,
            remaining: self.remaining as int,
            ended: self.ended,
        }
    }
}

/// What has to be done for a stream to go on.
pub enum StreamStep {
    /// These bytes are next.
    Emit(Bytes),
    /// The page of this number has to be fetched.
    Fetch(u64),
    /// The stream is over.
    End,
}

impl ChunkedRead {
    /// Answers a read from its first page, as far as that page goes.
    pub fn first_chunk(&self, first: Bytes) -> (answer: FirstRead)
        requires
            self.wf(),
        ensures
            match answer {
                FirstRead::Whole(bytes) => {
                    &&& first_suffices(*self, bytes_view(first))
                    &&& bytes_view(bytes) == first_part(*self, bytes_view(first))
                },
                FirstRead::Stream(stream) => {
                    &&& !first_suffices(*self, bytes_view(first))
                    &&& stream.wf()
                    &&& stream@ == (StreamView {
                        first: Some(first_part(*self, bytes_view(first))),
                        next: self.chunk_begin + 1,
                        last: self.chunk_end as int,
                        remaining: self.end - self.start - first_part(
                            *self,
                            bytes_view(first),
                        ).len(),
                        ended: false,
                    })
                },
            },
    {
        proof {
            lemma_page_at_bound(self.start as int, self.pagesize as int);
            lemma_page_at_bound(self.end - 1, self.pagesize as int);
            lemma_page_of_offset(self.start as int, self.pagesize as int);
            lemma_page_of_offset(self.end - 1, self.pagesize as int);
            lemma_page_order(self.start as int, self.end - 1, self.pagesize as int);
        }
        let initial_offset: u64 = self.start - (self.chunk_begin - 1) * self.pagesize;
        let len: usize = bytes_len(&first);
        if initial_offset > len as u64 {
            return FirstRead::Whole(empty_read());
        }
        let reached_end: bool = (len as u64) < self.pagesize;
        let tail: Bytes = bytes_slice(&first, initial_offset as usize, len);
        let tail_len: usize = bytes_len(&tail);
        let asked: u64 = self.end - self.start;
        // If it fits in a single page, just return the data immediately.
        if reached_end || tail_len as u64 >= asked {
            let total_len: usize = if asked < tail_len as u64 {
                asked as usize
            } else {
                tail_len
            };
            let whole: Bytes = bytes_slice(&tail, 0, total_len);
            assert(bytes_view(whole) =~= first_part(*self, bytes_view(first)));
            return FirstRead::Whole(whole);
        }
        assert(bytes_view(tail) =~= first_part(*self, bytes_view(first)));
        FirstRead::Stream(
            ChunkStream {
                first: Some(tail),
                next: self.chunk_begin + 1,
                last: self.chunk_end,
                remaining: asked - tail_len as u64,
                ended: false,
            },
        )
    }
}

impl ChunkStream {
    /// The page after the last one has a number.
    pub closed spec fn wf(&self) -> bool {
        &&& self.next <= self.last + 1
        &&& self.last < u64::MAX
    }

    /// Decides how the stream goes on.
    pub fn step(&mut self) -> (step: StreamStep)
        requires
            old(self).wf(),
        ensures
            final(self).wf(),
            match step {
                StreamStep::Emit(bytes) => {
                    &&& old(self)@.first == Some(bytes_view(bytes))
                    &&& final(self)@ == (StreamView { first: None, ..old(self)@ })
                },
                StreamStep::Fetch(n) => {
                    &&& old(self)@.first is None
                    &&& !old(self)@.finished()
                    &&& n == old(self)@.next
                    &&& final(self)@ == old(self)@
                },
                StreamStep::End => old(self)@.finished() && final(self)@ == old(self)@,
            },
    {
        match self.first.take() {
            Some(bytes) => StreamStep::Emit(bytes),
            None => if self.ended || self.next > self.last {
                StreamStep::End
            } else {
                StreamStep::Fetch(self.next)
            },
        }
    }

    /// Takes in the page that was fetched, or the error that came instead, and gives the item that
    /// the stream hands out for it. A page that contributes nothing gives no item and gracefully
    /// ends the stream.
    pub fn supply(&mut self, fetched: Result<Bytes, Error>) -> (item: Option<Result<Bytes, Error>>)
        requires
            old(self).wf(),
            old(self)@.first is None,
            !old(self)@.finished(),
        ensures
            final(self).wf(),
            match fetched {
                Ok(page) => {
                    let part = next_part(bytes_view(page), old(self)@.remaining);
                    &&& final(self)@ == old(self)@.supplied(bytes_view(page))
                    &&& item is None <==> part.len() == 0
                    &&& item matches Some(given) ==> given is Ok && bytes_view(given->Ok_0) == part
                },
                Err(error) => {
                    &&& final(self)@ == old(self)@.failed()
                    &&& item == Some(Err::<Bytes, Error>(error))
                },
            },
    {
        self.next = self.next + 1;
        match fetched {
            Err(error) => Some(Err(error)),
            Ok(page) => {
                let len: usize = bytes_len(&page);
                let part: Bytes = if len as u64 > self.remaining {
                    let cut: Bytes = bytes_slice(&page, 0, self.remaining as usize);
                    self.remaining = 0;
                    cut
                } else {
                    self.remaining = self.remaining - len as u64;
                    page
                };
                assert(bytes_view(part) =~= next_part(bytes_view(page), old(self)@.remaining));
                if bytes_len(&part) == 0 {
                    self.ended = true;
                    None
                } else {
                    Some(Ok(part))
                }
            },
        }
    }
}

/// An offset stands in its page.
proof fn lemma_page_of_offset(offset: int, pagesize: int)
    requires
        0 <= offset,
        pagesize > 0,
    ensures
        0 <= page_start(page_at(offset, pagesize), pagesize) <= offset,
        offset < page_start(page_at(offset, pagesize) + 1, pagesize),
        page_start(page_at(offset, pagesize) + 1, pagesize) == page_start(
            page_at(offset, pagesize),
            pagesize,
        ) + pagesize,
{
    let quotient = offset / pagesize;
    vstd::arithmetic::div_mod::lemma_fundamental_div_mod(offset, pagesize);
    assert(pagesize * quotient == quotient * pagesize) by (nonlinear_arith);
    assert((quotient + 1) * pagesize == quotient * pagesize + pagesize) by (nonlinear_arith);
    assert(0 <= quotient * pagesize) by (nonlinear_arith)
        requires
            0 <= quotient,
            pagesize > 0,
    ;
}

/// A later offset does not stand in an earlier page.
proof fn lemma_page_order(first: int, second: int, pagesize: int)
    requires
        0 <= first <= second,
        pagesize > 0,
    ensures
        page_at(first, pagesize) <= page_at(second, pagesize),
{
    assert(first / pagesize <= second / pagesize) by (nonlinear_arith)
        requires
            0 <= first <= second,
            pagesize > 0,
    ;
}

/// All that a stream hands out from here on, where page `n` is `pages(n)`.
pub open spec fn streamed(stream: StreamView, pages: spec_fn(int) -> Seq<u8>) -> Seq<u8>
    decreases stream.last + 1 - stream.next,
{
    if stream.ended || stream.next > stream.last {
        Seq::empty()
    } else {
        let page = pages(stream.next);
        next_part(page, stream.remaining) + streamed(stream.supplied(page), pages)
    }
}

/// All that a read is answered, where page `n` is `pages(n)`.
pub open spec fn answered(read: ChunkedRead, pages: spec_fn(int) -> Seq<u8>) -> Seq<u8> {
    let first = pages(read.chunk_begin as int);
    let part = first_part(read, first);
    if first_suffices(read, first) {
        part
    } else {
        part + streamed(
            StreamView {
                first: None,
                next: read.chunk_begin + 1,
                last: read.chunk_end as int,
                remaining: read.end - read.start - part.len(),
                ended: false,
            },
            pages,
        )
    }
}

/// A stream hands out the rest of its range when it goes on at a page's start.
proof fn lemma_streamed(blob: Seq<u8>, pagesize: int, stream: StreamView, end: int)
    requires
        pagesize > 0,
        1 <= stream.next,
        !stream.ended,
        end > 0,
        stream.last == page_at(end - 1, pagesize),
        page_start(stream.next, pagesize) <= end,
        stream.remaining == end - page_start(stream.next, pagesize),
    ensures
        streamed(stream, |n: int| blob_page(blob, pagesize, n)) == blob_slice(
            blob,
            page_start(stream.next, pagesize),
            end,
        ),
    decreases stream.last + 1 - stream.next,
{
    let pages = |n: int| blob_page(blob, pagesize, n);
    let k = stream.next;
    let from = page_start(k, pagesize);
    let to = page_start(k + 1, pagesize);
    let whole = blob_slice(blob, from, end);
    assert(k * pagesize == (k - 1) * pagesize + pagesize) by (nonlinear_arith);
    assert(0 <= (k - 1) * pagesize) by (nonlinear_arith)
        requires
            1 <= k,
            pagesize > 0,
    ;
    lemma_page_of_offset(end - 1, pagesize);
    if k > stream.last {
        assert(stream.last * pagesize <= (k - 1) * pagesize) by (nonlinear_arith)
            requires
                stream.last <= k - 1,
                pagesize > 0,
        ;
        assert(streamed(stream, pages) =~= whole);
    } else {
        let page = pages(k);
        let part = next_part(page, stream.remaining);
        let rest = stream.supplied(page);
        assert(page == blob_page(blob, pagesize, k));
        if to <= end && page.len() == pagesize && part.len() != 0 {
            assert(part == page);
            assert(rest.remaining == end - to);
            lemma_streamed(blob, pagesize, rest, end);
            assert(part + blob_slice(blob, to, end) =~= whole);
        } else {
            if !rest.ended && rest.next <= rest.last {
                // There is a later page, so this one was cut short by the end of the blob, and
                // the later one is empty.
                assert(k * pagesize <= (stream.last - 1) * pagesize) by (nonlinear_arith)
                    requires
                        k <= stream.last - 1,
                        pagesize > 0,
                ;
                assert(page.len() < pagesize);
                assert(pages(rest.next) =~= Seq::<u8>::empty());
                let end_state = rest.supplied(pages(rest.next));
                assert(end_state.ended);
                assert(streamed(end_state, pages) =~= Seq::<u8>::empty());
            }
            assert(streamed(rest, pages) =~= Seq::<u8>::empty());
            assert(part =~= whole);
            assert(streamed(stream, pages) =~= whole);
        }
    }
}

/// Reading a blob page by page gives what reading it directly gives, for every range and every
/// page size.
pub proof fn law_paged_read_is_direct_read(blob: Seq<u8>, range: BlobRange, read: ChunkedRead)
    requires
        blob.len() <= u64::MAX,
        valid_range(range),
        read.wf(),
        (read.start, read.end) == range_bounds(range),
    ensures
        answered(read, |n: int| blob_page(blob, read.pagesize as int, n)) == blob_range(blob, range),
{
    let pagesize = read.pagesize as int;
    let pages = |n: int| blob_page(blob, pagesize, n);
    let begin = read.chunk_begin as int;
    let first = pages(begin);
    let part = first_part(read, first);
    let from = page_start(begin, pagesize);
    lemma_page_of_offset(read.start as int, pagesize);
    lemma_page_of_offset(read.end - 1, pagesize);
    assert(first == blob_page(blob, pagesize, begin));
    let whole = blob_slice(blob, read.start as int, read.end as int);
    assert(blob_range(blob, range) =~= whole);
    if first_suffices(read, first) {
        assert(part =~= whole);
    } else {
        let stream = StreamView {
            first: None,
            next: begin + 1,
            last: read.chunk_end as int,
            remaining: read.end - read.start - part.len(),
            ended: false,
        };
        assert(first.len() == pagesize);
        assert(part =~= first.skip(first_offset(read)));
        lemma_streamed(blob, pagesize, stream, read.end as int);
        assert(part + blob_slice(blob, page_start(begin + 1, pagesize), read.end as int)
            =~= whole);
    }
}

/// A range of length zero asks for nothing.
pub proof fn law_zero_length_read_is_empty(blob: Seq<u8>, range: BlobRange)
    requires
        range_bounds(range).0 == range_bounds(range).1,
    ensures
        blob_range(blob, range) == Seq::<u8>::empty(),
{
    assert(blob_range(blob, range) =~= Seq::<u8>::empty());
}

/// Every byte of a blob is in exactly one of its pages.
pub proof fn law_pages_partition_blob(blob: Seq<u8>, pagesize: int, offset: int)
    requires
        pagesize > 0,
        0 <= offset < blob.len(),
    ensures
        ({
            let n = page_at(offset, pagesize);
            let at = offset - page_start(n, pagesize);
            &&& 0 <= at < blob_page(blob, pagesize, n).len()
            &&& blob_page(blob, pagesize, n)[at] == blob[offset]
            &&& forall|m: int|
                m >= 1 && #[trigger] page_start(m, pagesize) <= offset < page_start(
                    m,
                    pagesize,
                ) + pagesize ==> m == n
        }),
{
    let n = page_at(offset, pagesize);
    lemma_page_of_offset(offset, pagesize);
    assert forall|m: int|
        m >= 1 && #[trigger] page_start(m, pagesize) <= offset < page_start(m, pagesize)
            + pagesize implies m == n by {
        assert(m == n) by (nonlinear_arith)
            requires
                (m - 1) * pagesize <= offset < (m - 1) * pagesize + pagesize,
                (n - 1) * pagesize <= offset < (n - 1) * pagesize + pagesize,
                pagesize > 0,
        ;
    }
}

/// What a stream hands out depends on the pages that it fetches, and on no others.
proof fn lemma_streamed_congruent(
    stream: StreamView,
    left: spec_fn(int) -> Seq<u8>,
    right: spec_fn(int) -> Seq<u8>,
)
    requires
        forall|n: int| stream.next <= n <= stream.last ==> #[trigger] left(n) == right(n),
    ensures
        streamed(stream, left) == streamed(stream, right),
    decreases stream.last + 1 - stream.next,
{
    if !stream.ended && stream.next <= stream.last {
        assert(left(stream.next) == right(stream.next));
        lemma_streamed_congruent(stream.supplied(left(stream.next)), left, right);
    }
}

/// What a read is answered depends on the pages from the one that holds its first byte to the one
/// that holds its last, and on no others.
pub proof fn law_read_needs_its_pages_only(
    read: ChunkedRead,
    left: spec_fn(int) -> Seq<u8>,
    right: spec_fn(int) -> Seq<u8>,
)
    requires
        read.wf(),
        forall|n: int|
            read.chunk_begin <= n <= read.chunk_end ==> #[trigger] left(n) == right(n),
    ensures
        answered(read, left) == answered(read, right),
{
    let first = left(read.chunk_begin as int);
    lemma_page_order(read.start as int, read.end - 1, read.pagesize as int);
    assert(first == right(read.chunk_begin as int));
    let stream = StreamView {
        first: None,
        next: read.chunk_begin + 1,
        last: read.chunk_end as int,
        remaining: read.end - read.start - first_part(read, first).len(),
        ended: false,
    };
    lemma_streamed_congruent(stream, left, right);
}

/// The bytes between the bounds of a page are the bytes of the page, up to the last offset that
/// there is.
pub proof fn law_bounds_hold_page(blob: Seq<u8>, pagesize: int, n: int)
    requires
        blob.len() <= u64::MAX,
    ensures
        ({
            let (lo, hi) = page_bounds(n, pagesize);
            blob_slice(blob, lo, hi) == blob_page(blob, pagesize, n)
        }),
{
}

/// The pages of a read are numbered from 1 on and in order. The first one holds the first byte of
/// the range, and the last one the last byte. Each of them starts at an offset that
/// there is, and every one but the last ends at an offset within the read.
pub proof fn law_read_pages_are_in_order(read: ChunkedRead, n: int)
    requires
        read.wf(),
    ensures
        1 <= read.chunk_begin <= read.chunk_end,
        (read.chunk_begin - 1) * read.pagesize <= read.start < read.chunk_begin * read.pagesize,
        (read.chunk_end - 1) * read.pagesize < read.end <= read.chunk_end * read.pagesize,
        read.chunk_begin <= n <= read.chunk_end ==> 0 <= (n - 1) * read.pagesize < read.end,
        read.chunk_begin <= n < read.chunk_end ==> read.start < n * read.pagesize < read.end,
{
    let pagesize = read.pagesize as int;
    lemma_page_at_bound(read.start as int, pagesize);
    lemma_page_order(read.start as int, read.end - 1, pagesize);
    lemma_page_of_offset(read.start as int, pagesize);
    lemma_page_of_offset(read.end - 1, pagesize);
    if read.chunk_begin <= n <= read.chunk_end {
        assert(0 <= (n - 1) * pagesize <= (read.chunk_end - 1) * pagesize) by (nonlinear_arith)
            requires
                1 <= n <= read.chunk_end,
                pagesize > 0,
        ;
    }
    if read.chunk_begin <= n < read.chunk_end {
        assert(read.chunk_begin * pagesize <= n * pagesize) by (nonlinear_arith)
            requires
                read.chunk_begin <= n,
                pagesize > 0,
        ;
        assert(n * pagesize <= (read.chunk_end - 1) * pagesize) by (nonlinear_arith)
            requires
                n <= read.chunk_end - 1,
                pagesize > 0,
        ;
    }
}

/// Page `n` of a blob holds the bytes from `(n - 1) * pagesize` up to `n * pagesize`, as far as the
/// blob reaches, in order. These are also the bounds that are asked for, as far as offsets reach.
pub proof fn law_page_is_its_byte_range(blob: Seq<u8>, pagesize: int, n: int, i: int)
    requires
        pagesize > 0,
        n >= 1,
    ensures
        ({
            let page = blob_page(blob, pagesize, n);
            &&& (n - 1) * pagesize >= blob.len() ==> page.len() == 0
            &&& n * pagesize <= blob.len() ==> page.len() == pagesize
            &&& (n - 1) * pagesize < blob.len() < n * pagesize ==> page.len() == blob.len() - (n
                - 1) * pagesize
            &&& 0 <= i < page.len() ==> page[i] == blob[(n - 1) * pagesize + i]
        }),
        page_bounds(n, pagesize).0 == (n - 1) * pagesize,
        n * pagesize <= u64::MAX ==> page_bounds(n, pagesize).1 == n * pagesize,
        n * pagesize > u64::MAX ==> page_bounds(n, pagesize).1 == u64::MAX,
{
    assert(n * pagesize == (n - 1) * pagesize + pagesize) by (nonlinear_arith);
    assert((n - 1) * pagesize >= 0) by (nonlinear_arith)
        requires
            n >= 1,
            pagesize > 0,
    ;
}

/// An offset is in the page whose byte range it is in.
pub proof fn law_offset_is_in_its_page(offset: int, pagesize: int)
    requires
        offset >= 0,
        pagesize > 0,
    ensures
        (page_at(offset, pagesize) - 1) * pagesize <= offset < page_at(offset, pagesize) * pagesize,
{
    lemma_page_of_offset(offset, pagesize);
}

/// The first page that contributes nothing ends a stream; as long as pages contribute and there
/// are more to come, it goes on. A page contributes its first bytes, as many as are still asked
/// for. A page that could not be had is passed over, and nothing else changes.
pub proof fn law_stream_ends_at_first_empty_page(stream: StreamView, page: Seq<u8>)
    requires
        stream.first is None,
        !stream.finished(),
        stream.remaining >= 0,
    ensures
        ({
            let after = stream.supplied(page);
            &&& page.len() == 0 || stream.remaining == 0 ==> after.finished()
            &&& page.len() > 0 && stream.remaining > 0 && stream.next < stream.last
                ==> !after.finished()
            &&& stream.next >= stream.last ==> after.finished()
            &&& after.next == stream.next + 1
            &&& page.len() <= stream.remaining ==> {
                &&& next_part(page, stream.remaining) == page
                &&& after.remaining == stream.remaining - page.len()
            }
            &&& page.len() > stream.remaining ==> {
                &&& next_part(page, stream.remaining) == page.subrange(0, stream.remaining)
                &&& after.remaining == 0
            }
        }),
        stream.failed() == (StreamView { next: stream.next + 1, ..stream }),
{
}

} // verus!
