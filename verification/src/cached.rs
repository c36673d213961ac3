//! The cache in front of a provider: what is answered from memory, what is waited for, what is
//! fetched, and what is written to the disk cache.
//!
//! A caller performs the reads, writes and waits that the functions here decide on, and reports
//! their outcomes back. It runs each function on the shared state under a lock.

use crate::buffer::{bytes_clone, bytes_from_vec, bytes_len, bytes_view, result_view};
use crate::chunks::{plan_read, range_bounds, ReadPlan, MIN_PAGESIZE};
use crate::error::Error;
use crate::page_cache::{
    countable, distinct_pages, inserted, law_cache_within_capacity, law_page_moves_to_back,
    page_data, total_cost, touched, Page, PageCache, PageKey, PAGE_CACHE_CAPACITY,
};
use crate::pending::PendingRequests;
use crate::range::{valid_range, BlobRange};
use crate::text::{
    decimal, law_decimal_is_positional, law_number_round_trip, lemma_number_behind_separator,
    parsed_number, push_numeral,
};
use hyper::body::Bytes;
use vstd::prelude::*;

verus! {

/// Maximum time to wait for a pending cache population request.
pub const MAX_PENDING_REQUEST_WAIT_MS: u64 = 60000;

/// Stats of [`CachedState`].
#[non_exhaustive]
#[derive(Debug)]
pub struct CacheStats {
    /// Number of pages pending writing to disk cache
    pub pending_disk_write_pages: u64,
    /// Bytes pending writing to disk cache
    pub pending_disk_write_bytes: u64,
    /// Number of pending requests
    pub pending_requests: u64,
}

/// The state of a cache, as far as its requests can tell.
#[verifier::reject_recursive_types(R)]
pub struct CacheView<R> {
    /// The pages in memory, from the least to the most recently used.
    pub pages: Seq<Page>,
    /// The requests under way, and what their waiters listen on.
    pub pending: Map<PageKey, R>,
    /// The size of a page.
    pub pagesize: u64,
    /// The number of pages waiting to be written to disk.
    pub write_pages: u64,
    /// The number of bytes waiting to be written to disk.
    pub write_bytes: u64,
}

/// The shared state of a cache. `R` is what the waiters of a request listen on.
pub struct CachedState<R> {
    page_cache: PageCache,
    pending_requests: PendingRequests<R>,
    pagesize: u64,
    diskcache_pending_write_pages: u64,
    diskcache_pending_write_bytes: u64,
}

impl<R> View for CachedState<R> {
    type V = CacheView<R>;

    closed spec fn view(&self) -> CacheView<R> {
        CacheView {
            pages: self.page_cache@,
            pending: self.pending_requests@,
            pagesize: self.pagesize,
            write_pages: self.diskcache_pending_write_pages,
            write_bytes: self.diskcache_pending_write_bytes,
        }
    }
}

/// What is to be done for a page.
pub enum CacheLookup {
    /// The page was in memory.
    Hit(Bytes),
    /// The page is being fetched: wait for it.
    Join,
    /// The page has to be fetched, and then waited for.
    Start,
}

/// What is to be done for a page, over the bytes of the page.
pub enum LookupView {
    /// The page was in memory, and holds these bytes.
    Hit(Seq<u8>),
    /// The page is being fetched.
    Join,
    /// The page has to be fetched.
    Start,
}

impl View for CacheLookup {
    type V = LookupView;

    open spec fn view(&self) -> LookupView {
        match *self {
            CacheLookup::Hit(bytes) => LookupView::Hit(bytes_view(bytes)),
            CacheLookup::Join => LookupView::Join,
            CacheLookup::Start => LookupView::Start,
        }
    }
}

/// Where the page of a key is to come from. A page in memory is answered at once; otherwise a
/// page that is being fetched is waited for.
pub open spec fn looked_up<R>(state: CacheView<R>, key: PageKey) -> LookupView {
    match page_data(state.pages, key) {
        Some(data) => LookupView::Hit(data),
        None => if state.pending.contains_key(key) {
            LookupView::Join
        } else {
            LookupView::Start
        },
    }
}

/// How waiting for a page ended.
pub enum WaitOutcome {
    /// The fetch ended like this.
    Received(Result<Bytes, Error>),
    /// The fetch was given up without an outcome.
    Dropped,
    /// The fetch took longer than [`MAX_PENDING_REQUEST_WAIT_MS`].
    TimedOut,
}

/// What is to be done after waiting for a page.
pub enum WaitAction {
    /// Answer this.
    Return(Result<Bytes, Error>),
    /// Ask the provider, and answer what it says.
    CallProvider,
}

/// What happened to a fetch.
pub enum FetchEvent {
    /// It starts; the blob is stored under this key, or has an unusable hash.
    Start(Result<String, Error>),
    /// The disk cache was read, and held the page or did not.
    DiskRead(Option<Vec<u8>>),
    /// The provider answered.
    Fetched(Result<Bytes, Error>),
}

/// What a fetch does next.
pub enum FetchStep {
    /// Read the file at this path in the cache directory.
    ReadDisk(String),
    /// Ask the provider.
    CallProvider,
    /// Nothing: this is its outcome. Where `populate` is set, a page of that many bytes is to be
    /// written to the disk cache.
    Done { result: Result<Bytes, Error>, populate: Option<u64> },
}

/// What happened to a fetch, over the bytes of the page.
pub enum FetchEventView {
    /// It starts, with this key or error.
    Start(Result<Seq<char>, Error>),
    /// The disk cache was read.
    DiskRead(Option<Seq<u8>>),
    /// The provider answered.
    Fetched(Result<Seq<u8>, Error>),
}

impl View for FetchEvent {
    type V = FetchEventView;

    open spec fn view(&self) -> FetchEventView {
        match *self {
            FetchEvent::Start(Ok(key)) => FetchEventView::Start(Ok(key@)),
            FetchEvent::Start(Err(error)) => FetchEventView::Start(Err(error)),
            FetchEvent::DiskRead(Some(data)) => FetchEventView::DiskRead(Some(data@)),
            FetchEvent::DiskRead(None) => FetchEventView::DiskRead(None),
            FetchEvent::Fetched(result) => FetchEventView::Fetched(result_view(result)),
        }
    }
}

/// What a fetch does next, over the bytes of the page.
pub enum FetchStepView {
    /// Read the file at this path.
    ReadDisk(Seq<char>),
    /// Ask the provider.
    CallProvider,
    /// Nothing: this is its outcome, and the length of the page that is to be written to disk.
    Done { result: Result<Seq<u8>, Error>, populate: Option<nat> },
}

impl View for FetchStep {
    type V = FetchStepView;

    open spec fn view(&self) -> FetchStepView {
        match *self {
            FetchStep::ReadDisk(path) => FetchStepView::ReadDisk(path@),
            FetchStep::CallProvider => FetchStepView::CallProvider,
            FetchStep::Done { result, populate } => FetchStepView::Done {
                result: result_view(result),
                populate: match populate {
                    Some(len) => Some(len as nat),
                    None => None,
                },
            },
        }
    }
}

/// The page that an event brings in, if it does.
pub open spec fn page_of_event(event: FetchEventView) -> Option<Seq<u8>> {
    match event {
        FetchEventView::DiskRead(Some(data)) => Some(data),
        FetchEventView::Fetched(Ok(data)) => Some(data),
        _ => None,
    }
}

/// What a fetch of page `n` does next. It reads the disk cache and falls back to the provider.
/// What did not come from disk is to be written there.
pub open spec fn fetch_next(n: u64, event: FetchEventView) -> FetchStepView {
    match event {
        FetchEventView::Start(Ok(key)) => FetchStepView::ReadDisk(page_path(key, n)),
        FetchEventView::Start(Err(error)) => FetchStepView::Done {
            result: Err(error),
            populate: None,
        },
        FetchEventView::DiskRead(Some(data)) => FetchStepView::Done {
            result: Ok(data),
            populate: None,
        },
        FetchEventView::DiskRead(None) => FetchStepView::CallProvider,
        FetchEventView::Fetched(Ok(data)) => FetchStepView::Done {
            result: Ok(data),
            populate: Some(data.len()),
        },
        FetchEventView::Fetched(Err(error)) => FetchStepView::Done {
            result: Err(error),
            populate: None,
        },
    }
}

/// The state after an event of a fetch: the page that it brings in, if any, goes into memory.
pub open spec fn fetched<R>(
    state: CacheView<R>,
    key: PageKey,
    event: FetchEventView,
) -> CacheView<R> {
    match page_of_event(event) {
        Some(data) => CacheView { pages: inserted(state.pages, key, data), ..state },
        None => state,
    }
}

/// The state after a request for a page looked where it is to come from.
pub open spec fn requested<R>(state: CacheView<R>, key: PageKey) -> CacheView<R> {
    CacheView { pages: touched(state.pages, key), ..state }
}

/// The state with a fetch of a page under way.
pub open spec fn started<R>(state: CacheView<R>, key: PageKey, receiver: R) -> CacheView<R> {
    CacheView { pending: state.pending.insert(key, receiver), ..state }
}

/// The state with no fetch of a page under way.
pub open spec fn finished<R>(state: CacheView<R>, key: PageKey) -> CacheView<R> {
    CacheView { pending: state.pending.remove(key), ..state }
}

/// The state after a wait for a page ended. A fetch that was given up is no longer under way.
pub open spec fn waited<R>(
    state: CacheView<R>,
    key: PageKey,
    outcome: WaitOutcome,
) -> CacheView<R> {
    match outcome {
        WaitOutcome::Dropped => finished(state, key),
        _ => state,
    }
}

/// What happened to a write to the disk cache.
pub enum PopulateEvent {
    /// It starts; the blob is stored under this key, or has an unusable hash.
    Start(Result<String, Error>),
    /// The page was looked for on disk, and is there or is not.
    Checked(bool),
    /// The provider answered.
    Fetched(Result<Bytes, Error>),
}

/// What a write to the disk cache does next.
pub enum PopulateStep {
    /// Look whether there is a file at this path in the cache directory.
    CheckDisk(String),
    /// Ask the provider.
    CallProvider,
    /// Write these bytes to the file.
    Write(Bytes),
    /// Nothing: the page is not written, because of this error or because it is on disk already.
    Stop(Option<Error>),
}

/// What happened to a write to the disk cache, over the bytes of the page.
pub enum PopulateEventView {
    /// It starts, with this key or error.
    Start(Result<Seq<char>, Error>),
    /// The page was looked for on disk, and is there or is not.
    Checked(bool),
    /// The provider answered.
    Fetched(Result<Seq<u8>, Error>),
}

impl View for PopulateEvent {
    type V = PopulateEventView;

    open spec fn view(&self) -> PopulateEventView {
        match *self {
            PopulateEvent::Start(Ok(key)) => PopulateEventView::Start(Ok(key@)),
            PopulateEvent::Start(Err(error)) => PopulateEventView::Start(Err(error)),
            PopulateEvent::Checked(on_disk) => PopulateEventView::Checked(on_disk),
            PopulateEvent::Fetched(result) => PopulateEventView::Fetched(result_view(result)),
        }
    }
}

/// What a write to the disk cache does next, over the bytes of the page.
pub enum PopulateStepView {
    /// Look whether there is a file at this path.
    CheckDisk(Seq<char>),
    /// Ask the provider.
    CallProvider,
    /// Write these bytes to the file.
    Write(Seq<u8>),
    /// Nothing, because of this error or because the page is on disk already.
    Stop(Option<Error>),
}

impl View for PopulateStep {
    type V = PopulateStepView;

    open spec fn view(&self) -> PopulateStepView {
        match *self {
            PopulateStep::CheckDisk(path) => PopulateStepView::CheckDisk(path@),
            PopulateStep::CallProvider => PopulateStepView::CallProvider,
            PopulateStep::Write(bytes) => PopulateStepView::Write(bytes_view(bytes)),
            PopulateStep::Stop(error) => PopulateStepView::Stop(error),
        }
    }
}

/// What a write of a page to the disk cache does next. A page that is on disk already is left
/// alone; else the page is taken from memory, and if it has left there, from the provider.
pub open spec fn populate_next(
    pages: Seq<Page>,
    key: PageKey,
    event: PopulateEventView,
) -> PopulateStepView {
    match event {
        PopulateEventView::Start(Ok(blob_key)) => PopulateStepView::CheckDisk(
            page_path(blob_key, key.1),
        ),
        PopulateEventView::Start(Err(error)) => PopulateStepView::Stop(Some(error)),
        PopulateEventView::Checked(true) => PopulateStepView::Stop(None),
        PopulateEventView::Checked(false) => match page_data(pages, key) {
            Some(data) => PopulateStepView::Write(data),
            None => PopulateStepView::CallProvider,
        },
        PopulateEventView::Fetched(Ok(data)) => PopulateStepView::Write(data),
        PopulateEventView::Fetched(Err(error)) => PopulateStepView::Stop(Some(error)),
    }
}

/// The path of page `n` of the blob that is stored under `key`, in the cache directory.
pub open spec fn page_path(key: Seq<char>, n: u64) -> Seq<char> {
    key + "/"@ + decimal(n as nat)
}

/// What is answered when a fetch was given up.
pub open spec fn dropped_message(hash: Seq<char>, n: u64) -> Seq<char> {
    "pending request channel dropped hash="@ + hash + " n="@ + decimal(n as nat)
}

/// The path of page `n` of a blob in the cache directory, given the key of the blob.
pub fn page_disk_path(key: Result<String, Error>, n: u64) -> (path: Result<String, Error>)
    ensures
        key is Ok <==> path is Ok,
        key matches Ok(key) ==> path->Ok_0@ == page_path(key@, n),
        key matches Err(error) ==> path == Err::<String, Error>(error),
{
    match key {
        Ok(key) => {
            let mut path: String = key;
            path.append("/");
            push_numeral(&mut path, n, 10);
            Ok(path)
        },
        Err(error) => Err(error),
    }
}

impl<R> CachedState<R> {
    /// No page is cached or fetched twice, the page cache is within its capacity, and pages are
    /// not too small.
    pub closed spec fn wf(&self) -> bool {
        &&& self.page_cache.wf()
        &&& self.pending_requests.wf()
        &&& self.pagesize >= MIN_PAGESIZE
    }

    /// A state with nothing cached and nothing under way.
    fn new(pagesize: u64) -> (state: CachedState<R>)
        requires
            pagesize >= MIN_PAGESIZE,
        ensures
            state.wf(),
            state@ == (CacheView {
                pages: Seq::<Page>::empty(),
                pending: Map::<PageKey, R>::empty(),
                pagesize,
                write_pages: 0,
                write_bytes: 0,
            }),
    {
        CachedState {
            page_cache: PageCache::default(),
            pending_requests: PendingRequests::new(),
            pagesize,
            diskcache_pending_write_pages: 0,
            diskcache_pending_write_bytes: 0,
        }
    }

    /// Decides where a page is to come from. A page in memory is answered at once. Otherwise a
    /// page that is being fetched is waited for, so that no page is fetched twice at a time.
    pub fn with_cache(&mut self, hash: &str, n: u64) -> (lookup: CacheLookup)
        requires
            old(self).wf(),
        ensures
            final(self).wf(),
            final(self)@ == requested(old(self)@, (hash@, n)),
            lookup@ == looked_up(old(self)@, (hash@, n)),
            match lookup {
                CacheLookup::Hit(bytes) => page_data(old(self)@.pages, (hash@, n)) == Some(
                    bytes_view(bytes),
                ),
                CacheLookup::Join => page_data(old(self)@.pages, (hash@, n)) is None && old(
                    self,
                )@.pending.contains_key((hash@, n)),
                CacheLookup::Start => page_data(old(self)@.pages, (hash@, n)) is None && !old(
                    self,
                )@.pending.contains_key((hash@, n)),
            },
    {
        match self.page_cache.get(hash.to_owned(), n) {
            Some(bytes) => CacheLookup::Hit(bytes),
            None => match self.pending_requests.get(hash, n) {
                Some(_) => CacheLookup::Join,
                None => CacheLookup::Start,
            },
        }
    }

    /// What the waiters of a page listen on, where it is being fetched.
    pub fn pending_request(&self, hash: &str, n: u64) -> (receiver: Option<&R>)
        requires
            self.wf(),
        ensures
            receiver is Some <==> self@.pending.contains_key((hash@, n)),
            receiver matches Some(receiver) ==> *receiver == self@.pending[(hash@, n)],
    {
        self.pending_requests.get(hash, n)
    }

    /// Notes that a page is being fetched, and what its waiters listen on.
    pub fn start_request(&mut self, hash: &str, n: u64, receiver: R)
        requires
            old(self).wf(),
            !old(self)@.pending.contains_key((hash@, n)),
        ensures
            final(self).wf(),
            final(self)@ == started(old(self)@, (hash@, n), receiver),
    {
        self.pending_requests.insert(hash.to_owned(), n, receiver);
    }

    /// Decides what to answer once waiting for a page has ended. A fetch that was given up is no
    /// longer under way.
    pub fn finish_wait(&mut self, hash: &str, n: u64, outcome: WaitOutcome) -> (action: WaitAction)
        requires
            old(self).wf(),
        ensures
            final(self).wf(),
            final(self)@ == waited(old(self)@, (hash@, n), outcome),
            final(self)@.pending == (if outcome is Dropped {
                old(self)@.pending.remove((hash@, n))
            } else {
                old(self)@.pending
            }),
            match outcome {
                WaitOutcome::Received(result) => action == WaitAction::Return(result),
                WaitOutcome::Dropped => action matches WaitAction::Return(
                    Err(Error::Internal(message)),
                ) && message@ == dropped_message(hash@, n),
                WaitOutcome::TimedOut => action == WaitAction::CallProvider,
            },
    {
        match outcome {
            WaitOutcome::Received(result) => WaitAction::Return(result),
            WaitOutcome::Dropped => {
                let _ = self.pending_requests.remove(hash, n);
                let mut message: String = "pending request channel dropped hash=".to_owned();
                message.append(hash);
                message.append(" n=");
                push_numeral(&mut message, n, 10);
                WaitAction::Return(Err(Error::Internal(message)))
            },
            WaitOutcome::TimedOut => WaitAction::CallProvider,
        }
    }

    /// Ends a fetch. Its outcome is to be sent to the waiters exactly when the fetch was still
    /// under way.
    pub fn finish_fetch(&mut self, hash: &str, n: u64) -> (send: bool)
        requires
            old(self).wf(),
        ensures
            final(self).wf(),
            final(self)@ == finished(old(self)@, (hash@, n)),
            send == old(self)@.pending.contains_key((hash@, n)),
    {
        match self.pending_requests.remove(hash, n) {
            Some(_) => true,
            None => false,
        }
    }

    /// Decides what a fetch does next: it reads the disk cache, falls back to the provider, and
    /// puts what it got into memory. What did not come from disk is to be written there.
    pub fn try_fetch(&mut self, hash: &str, n: u64, event: FetchEvent) -> (step: FetchStep)
        requires
            old(self).wf(),
            event matches FetchEvent::DiskRead(Some(data)) ==> countable(data@),
            event matches FetchEvent::Fetched(Ok(bytes)) ==> countable(bytes_view(bytes)),
        ensures
            final(self).wf(),
            final(self)@ == fetched(old(self)@, (hash@, n), event@),
            step@ == fetch_next(n, event@),
            match event {
                FetchEvent::Start(Ok(key)) => step matches FetchStep::ReadDisk(path) && path@
                    == page_path(key@, n),
                FetchEvent::Start(Err(error)) => step == (FetchStep::Done {
                    result: Err(error),
                    populate: None,
                }),
                FetchEvent::DiskRead(Some(data)) => {
                    &&& step matches FetchStep::Done { result: Ok(bytes), populate: None }
                        && bytes_view(bytes) == data@
                    &&& final(self)@.pages == inserted(old(self)@.pages, (hash@, n), data@)
                },
                FetchEvent::DiskRead(None) => step == FetchStep::CallProvider,
                FetchEvent::Fetched(Ok(page)) => {
                    &&& step matches FetchStep::Done { result: Ok(bytes), populate: Some(len) }
                        && bytes_view(bytes) == bytes_view(page) && len == bytes_view(page).len()
                    &&& final(self)@.pages == inserted(
                        old(self)@.pages,
                        (hash@, n),
                        bytes_view(page),
                    )
                },
                FetchEvent::Fetched(Err(error)) => step == (FetchStep::Done {
                    result: Err(error),
                    populate: None,
                }),
            },
    {
        match event {
            FetchEvent::Start(key) => match page_disk_path(key, n) {
                Ok(path) => FetchStep::ReadDisk(path),
                Err(error) => FetchStep::Done { result: Err(error), populate: None },
            },
            FetchEvent::DiskRead(Some(data)) => {
                let bytes: Bytes = bytes_from_vec(data);
                self.page_cache.insert(hash.to_owned(), n, bytes_clone(&bytes));
                FetchStep::Done { result: Ok(bytes), populate: None }
            },
            FetchEvent::DiskRead(None) => FetchStep::CallProvider,
            FetchEvent::Fetched(Ok(bytes)) => {
                self.page_cache.insert(hash.to_owned(), n, bytes_clone(&bytes));
                let len: u64 = bytes_len(&bytes) as u64;
                FetchStep::Done { result: Ok(bytes), populate: Some(len) }
            },
            FetchEvent::Fetched(Err(error)) => FetchStep::Done {
                result: Err(error),
                populate: None,
            },
        }
    }

    /// Counts a page of `bytes_len` bytes as waiting to be written to disk.
    pub fn populate_disk_cache(&mut self, bytes_len: u64)
        requires
            old(self).wf(),
        ensures
            final(self).wf(),
            final(self)@ == counted(old(self)@, bytes_len),
    {
        self.diskcache_pending_write_pages = self.diskcache_pending_write_pages.wrapping_add(1);
        self.diskcache_pending_write_bytes =
            self.diskcache_pending_write_bytes.wrapping_add(bytes_len);
    }

    /// Counts a page of `bytes_len` bytes as no longer waiting to be written to disk.
    pub fn populate_disk_cache_done(&mut self, bytes_len: u64)
        requires
            old(self).wf(),
        ensures
            final(self).wf(),
            final(self)@ == uncounted(old(self)@, bytes_len),
    {
        self.diskcache_pending_write_pages = self.diskcache_pending_write_pages.wrapping_sub(1);
        self.diskcache_pending_write_bytes =
            self.diskcache_pending_write_bytes.wrapping_sub(bytes_len);
    }

    /// Decides what a write to the disk cache does next. A page that is on disk already is left
    /// alone; else the page is taken from memory, and if it has left there, from the provider.
    pub fn populate_step(&self, hash: &str, n: u64, event: PopulateEvent) -> (step: PopulateStep)
        requires
            self.wf(),
        ensures
            step@ == populate_next(self@.pages, (hash@, n), event@),
            match event {
                PopulateEvent::Start(Ok(key)) => step matches PopulateStep::CheckDisk(path)
                    && path@ == page_path(key@, n),
                PopulateEvent::Start(Err(error)) => step == PopulateStep::Stop(Some(error)),
                PopulateEvent::Checked(true) => step == PopulateStep::Stop(None),
                PopulateEvent::Checked(false) => match page_data(self@.pages, (hash@, n)) {
                    Some(data) => step matches PopulateStep::Write(bytes) && bytes_view(bytes)
                        == data,
                    None => step == PopulateStep::CallProvider,
                },
                PopulateEvent::Fetched(Ok(page)) => step == PopulateStep::Write(page),
                PopulateEvent::Fetched(Err(error)) => step == PopulateStep::Stop(Some(error)),
            },
    {
        match event {
            PopulateEvent::Start(key) => match page_disk_path(key, n) {
                Ok(path) => PopulateStep::CheckDisk(path),
                Err(error) => PopulateStep::Stop(Some(error)),
            },
            PopulateEvent::Checked(on_disk) => if on_disk {
                PopulateStep::Stop(None)
            } else {
                match self.page_cache.peek(hash.to_owned(), n) {
                    Some(bytes) => PopulateStep::Write(bytes),
                    None => PopulateStep::CallProvider,
                }
            },
            PopulateEvent::Fetched(Ok(bytes)) => PopulateStep::Write(bytes),
            PopulateEvent::Fetched(Err(error)) => PopulateStep::Stop(Some(error)),
        }
    }

    /// The size of a page.
    pub fn pagesize(&self) -> (pagesize: u64)
        requires
            self.wf(),
        ensures
            pagesize == self@.pagesize,
            pagesize >= MIN_PAGESIZE,
    {
        self.pagesize
    }

    /// A snapshot of the pending disk writes and requests.
    pub fn stats(&self) -> (stats: CacheStats)
        requires
            self.wf(),
        ensures
            stats.pending_disk_write_pages == self@.write_pages,
            stats.pending_disk_write_bytes == self@.write_bytes,
            stats.pending_requests == self@.pending.dom().len(),
    {
        CacheStats {
            pending_disk_write_pages: self.diskcache_pending_write_pages,
            pending_disk_write_bytes: self.diskcache_pending_write_bytes,
            pending_requests: self.pending_requests.len() as u64,
        }
    }
}

/// A cache in front of a provider.
pub struct Cached<R> {
    /// The state that its requests share.
    pub state: CachedState<R>,
    /// How many pages ahead of a page that is read are fetched; none where it is 0.
    pub prefetch_depth: u32,
}

impl<R> Cached<R> {
    /// Create a new cache, with the page size in bytes for cached chunks.
    pub fn new(pagesize: u64) -> (cached: Cached<R>)
        requires
            pagesize >= MIN_PAGESIZE,
        ensures
            cached.state.wf(),
            cached.state@ == (CacheView {
                pages: Seq::<Page>::empty(),
                pending: Map::<PageKey, R>::empty(),
                pagesize,
                write_pages: 0,
                write_bytes: 0,
            }),
            cached.prefetch_depth == 0,
    {
        Cached { state: CachedState::new(pagesize), prefetch_depth: 0 }
    }

    /// Prefetch the N-ahead chunk. Setting to 0 implies no prefetching.
    pub fn set_prefetch_depth(&mut self, n: u32)
        ensures
            final(self).prefetch_depth == n,
            final(self).state == old(self).state,
    {
        self.prefetch_depth = n;
    }

    /// Get a snapshot of current stats like volume of pending disk writes.
    pub fn stats(&self) -> (stats: CacheStats)
        requires
            self.state.wf(),
        ensures
            stats.pending_disk_write_pages == self.state@.write_pages,
            stats.pending_disk_write_bytes == self.state@.write_bytes,
            stats.pending_requests == self.state@.pending.dom().len(),
    {
        self.state.stats()
    }

    /// The page that is to be fetched ahead when page `n` is read, if any.
    pub fn prefetch_chunk(&self, n: u64) -> (ahead: Option<u64>)
        requires
            n + self.prefetch_depth <= u64::MAX,
        ensures
            self.prefetch_depth == 0 ==> ahead is None,
            self.prefetch_depth > 0 ==> ahead is Some && ahead->0 == n + self.prefetch_depth,
    {
        if self.prefetch_depth > 0 {
            Some(n + self.prefetch_depth as u64)
        } else {
            None
        }
    }

    /// Decides how to answer a request for `range`.
    pub fn get(&self, range: BlobRange) -> (plan: Result<ReadPlan, Error>)
        requires
            self.state.wf(),
        ensures
            plan is Ok <==> valid_range(range),
            plan matches Err(error) ==> error == Error::BadRange,
            plan matches Ok(plan) ==> match plan {
                ReadPlan::HeadOnly => range_bounds(range).0 == range_bounds(range).1,
                ReadPlan::Chunks(read) => {
                    &&& read.wf()
                    &&& (read.start, read.end) == range_bounds(range)
                    &&& read.pagesize == self.state@.pagesize
                },
            },
    {
        plan_read(range, self.state.pagesize())
    }
}

/// `n`, a sum or difference of two 64-bit numbers, wrapped around where 64 bits do not hold it.
pub open spec fn wrapped(n: int) -> u64 {
    if n > u64::MAX {
        (n - 0x1_0000_0000_0000_0000) as u64
    } else if n < 0 {
        (n + 0x1_0000_0000_0000_0000) as u64
    } else {
        n as u64
    }
}

/// The state with one more page, of `len` bytes, waiting to be written to disk.
pub open spec fn counted<R>(state: CacheView<R>, len: u64) -> CacheView<R> {
    CacheView {
        write_pages: wrapped(state.write_pages + 1),
        write_bytes: wrapped(state.write_bytes + len),
        ..state
    }
}

/// The state with one page, of `len` bytes, less waiting to be written to disk.
pub open spec fn uncounted<R>(state: CacheView<R>, len: u64) -> CacheView<R> {
    CacheView {
        write_pages: wrapped(state.write_pages - 1),
        write_bytes: wrapped(state.write_bytes - len),
        ..state
    }
}

/// In every state, no page is in memory twice, the pages in memory cost no more than the capacity,
/// and pages have at least the smallest size.
pub proof fn law_state_within_bounds<R>(state: CachedState<R>)
    requires
        state.wf(),
    ensures
        distinct_pages(state@.pages),
        total_cost(state@.pages) <= PAGE_CACHE_CAPACITY,
        state@.pages.fold_left(0int, |sum: int, page: Page| sum + page.1.len() + 80) <= 67108864,
        state@.pagesize >= 4096,
{
    law_cache_within_capacity(state.page_cache);
}

/// No two pages share a file in the cache directory.
pub proof fn law_page_paths_are_distinct(a: Seq<char>, m: u64, b: Seq<char>, n: u64)
    requires
        page_path(a, m) == page_path(b, n),
    ensures
        a == b,
        m == n,
{
    reveal_strlit("/");
    assert("/"@ =~= seq!['/']);
    lemma_number_behind_separator(page_path(a, m), '/', 10, a, m as nat, b, n as nat);
}

/// The path of a page is the key of its blob, a slash, and a number that is read as the number of
/// the page.
pub proof fn law_page_path_names_page(key: Seq<char>, n: u64)
    ensures
        ({
            let path = page_path(key, n);
            &&& path.len() > key.len() + 1
            &&& path.take(key.len() as int) == key
            &&& path[key.len() as int] == '/'
            &&& parsed_number(path.skip(key.len() as int + 1)) == Some(n)
        }),
{
    reveal_strlit("/");
    let path = page_path(key, n);
    law_number_round_trip(n);
    law_decimal_is_positional(n as nat);
    assert(path.take(key.len() as int) =~= key);
    assert(path.skip(key.len() as int + 1) =~= decimal(n as nat));
}

/// What is answered when a fetch was given up names the blob, by its hash, and then the page, by
/// a number that is read as the number of the page.
pub proof fn law_dropped_message_names_page(hash: Seq<char>, n: u64)
    ensures
        ({
            let message = dropped_message(hash, n);
            let at = "pending request channel dropped hash="@.len() as int;
            &&& message.take(at) == "pending request channel dropped hash="@
            &&& message.subrange(at, at + hash.len()) == hash
            &&& message.subrange(at + hash.len(), at + hash.len() + 3) == " n="@
            &&& parsed_number(message.skip(at + hash.len() + 3)) == Some(n)
        }),
{
    reveal_strlit(" n=");
    let message = dropped_message(hash, n);
    let at = "pending request channel dropped hash="@.len() as int;
    law_number_round_trip(n);
    assert(message.take(at) =~= "pending request channel dropped hash="@);
    assert(message.subrange(at, at + hash.len()) =~= hash);
    assert(message.subrange(at + hash.len(), at + hash.len() + 3) =~= " n="@);
    assert(message.skip(at + hash.len() + 3) =~= decimal(n as nat));
}

/// A request finds a page that is in memory, with its bytes. Else it waits where the page is being
/// fetched, and starts a fetch where it is not.
pub proof fn law_request_prefers_memory<R>(state: CacheView<R>, key: PageKey, i: int)
    requires
        distinct_pages(state.pages),
    ensures
        0 <= i < state.pages.len() && state.pages[i].0 == key ==> looked_up(state, key)
            == LookupView::Hit(state.pages[i].1),
        (forall|j: int| 0 <= j < state.pages.len() ==> (#[trigger] state.pages[j]).0 != key) ==> {
            &&& state.pending.contains_key(key) ==> looked_up(state, key) == LookupView::Join
            &&& !state.pending.contains_key(key) ==> looked_up(state, key) == LookupView::Start
        },
{
    if 0 <= i < state.pages.len() && state.pages[i].0 == key {
        law_page_moves_to_back(state.pages, i, Seq::empty());
    }
}

} // verus!
