use blobnet::cached::{
    CacheLookup, Cached, FetchEvent, FetchStep, PopulateEvent, PopulateStep, WaitAction,
    WaitOutcome,
};
use blobnet::chunks::{chunk_bounds, plan_read, FirstRead, ReadPlan, StreamStep};
use blobnet::error::Error;
use blobnet::fallback::{fallback, FallbackStep};
use blobnet::memory::Memory;
use blobnet::range::{check_range, empty_after_head, empty_read, BlobRange};
use blobnet::size::{page_size, size_page};
use hyper::body::Bytes;

fn blob(len: usize) -> Vec<u8> {
    (0..len).map(|i| (i * 31 % 251) as u8).collect()
}

/// Fetches a page through the cache, as a server does that has no disk.
fn cached_page(
    cached: &mut Cached<u32>,
    memory: &Memory,
    hash: &str,
    n: u64,
) -> Result<Bytes, Error> {
    match cached.state.with_cache(hash, n) {
        CacheLookup::Hit(bytes) => return Ok(bytes),
        CacheLookup::Join => panic!("nothing else is under way"),
        CacheLookup::Start => cached.state.start_request(hash, n, 17),
    }
    assert_eq!(cached.state.pending_request(hash, n), Some(&17));
    let step = cached.state.try_fetch(hash, n, FetchEvent::Start(Ok("ab/cd".to_string())));
    match step {
        FetchStep::ReadDisk(path) => assert_eq!(path, format!("ab/cd/{}", n)),
        _ => panic!("the disk is read first"),
    }
    let step = cached.state.try_fetch(hash, n, FetchEvent::DiskRead(None));
    assert!(matches!(step, FetchStep::CallProvider));
    let fetched = if n == 0 {
        size_page(memory.head(hash))
    } else {
        memory.get(hash, Some(chunk_bounds(n, cached.state.pagesize())))
    };
    let result = match cached.state.try_fetch(hash, n, FetchEvent::Fetched(fetched)) {
        FetchStep::Done { result, populate } => {
            assert_eq!(populate, result.as_ref().ok().map(|bytes| bytes.len() as u64));
            result
        }
        _ => panic!("the fetch is done"),
    };
    assert!(cached.state.finish_fetch(hash, n));
    match cached.state.finish_wait(hash, n, WaitOutcome::Received(result)) {
        WaitAction::Return(result) => result,
        WaitAction::CallProvider => panic!("the page was received"),
    }
}

fn cached_get(
    cached: &mut Cached<u32>,
    memory: &Memory,
    hash: &str,
    range: BlobRange,
) -> Result<Vec<u8>, Error> {
    let read = match cached.get(range)? {
        ReadPlan::HeadOnly => {
            let head = page_size(cached_page(cached, memory, hash, 0));
            return empty_after_head(head).map(|bytes| bytes.to_vec());
        }
        ReadPlan::Chunks(read) => read,
    };
    let first = cached_page(cached, memory, hash, read.chunk_begin)?;
    let mut stream = match read.first_chunk(first) {
        FirstRead::Whole(bytes) => return Ok(bytes.to_vec()),
        FirstRead::Stream(stream) => stream,
    };
    let mut answer = Vec::new();
    loop {
        match stream.step() {
            StreamStep::Emit(bytes) => answer.extend_from_slice(&bytes),
            StreamStep::Fetch(n) => {
                let page = cached_page(cached, memory, hash, n);
                if let Some(item) = stream.supply(page) {
                    answer.extend_from_slice(&item?);
                }
            }
            StreamStep::End => return Ok(answer),
        }
    }
}

#[test]
fn cached_reads_are_direct_reads() {
    let page = 4096;
    for len in [0, 1, 4095, 4096, 4097, 8192, 10000, 12288] {
        let mut memory = Memory::new();
        let data = blob(len);
        let hash = memory.put(data.clone());
        let mut cached = Cached::new(page);
        assert_eq!(cached_get(&mut cached, &memory, &hash, None), Ok(data.clone()));
        for start in [0, 1, 4095, 4096, 4097, 8191, 8192, 10000, 12288, 12289, 20000] {
            for span in [0, 1, 2, 4095, 4096, 4097, 8192, 100000] {
                let range = Some((start, start + span));
                let direct = memory.get(&hash, range).unwrap().to_vec();
                let from = len.min(start as usize);
                let to = len.min((start + span) as usize);
                assert_eq!(direct, data[from..to].to_vec());
                assert_eq!(cached_get(&mut cached, &memory, &hash, range), Ok(direct));
            }
        }
    }
}

#[test]
fn cached_reads_report_errors() {
    let memory = Memory::new();
    let mut cached = Cached::new(4096);
    assert_eq!(cached_get(&mut cached, &memory, "no", None), Err(Error::NotFound));
    assert_eq!(cached_get(&mut cached, &memory, "no", Some((3, 3))), Err(Error::NotFound));
    assert_eq!(cached_get(&mut cached, &memory, "no", Some((4, 3))), Err(Error::BadRange));
    assert_eq!(page_size(cached_page(&mut cached, &memory, "no", 0)), Err(Error::NotFound));
}

#[test]
fn cached_size_is_the_size() {
    let mut memory = Memory::new();
    let hash = memory.put(blob(70000));
    let mut cached = Cached::new(4096);
    for _ in 0..2 {
        assert_eq!(page_size(cached_page(&mut cached, &memory, &hash, 0)), Ok(70000));
    }
}

#[test]
fn a_stream_hands_on_errors_and_goes_on() {
    let plan = plan_read(Some((0, 3 * 4096)), 4096);
    let read = match plan {
        Ok(ReadPlan::Chunks(read)) => read,
        _ => panic!("three pages"),
    };
    assert_eq!((read.chunk_begin, read.chunk_end), (1, 3));
    let mut stream = match read.first_chunk(Bytes::from(vec![1; 4096])) {
        FirstRead::Stream(stream) => stream,
        FirstRead::Whole(_) => panic!("more pages follow"),
    };
    assert!(matches!(stream.step(), StreamStep::Emit(bytes) if bytes.len() == 4096));
    assert!(matches!(stream.step(), StreamStep::Fetch(2)));
    let error = Error::Internal("gone".to_string());
    assert_eq!(stream.supply(Err(error.clone())), Some(Err(error)));
    assert!(matches!(stream.step(), StreamStep::Fetch(3)));
    assert_eq!(stream.supply(Ok(Bytes::new())), None);
    assert!(matches!(stream.step(), StreamStep::End));
    assert!(matches!(stream.step(), StreamStep::End));
}

#[test]
fn a_page_is_cut_to_what_is_asked_for() {
    let read = match plan_read(Some((5000, 9000)), 4096) {
        Ok(ReadPlan::Chunks(read)) => read,
        _ => panic!("two pages"),
    };
    assert_eq!((read.chunk_begin, read.chunk_end), (2, 3));
    let mut stream = match read.first_chunk(Bytes::from(blob(4096))) {
        FirstRead::Stream(stream) => stream,
        FirstRead::Whole(_) => panic!("another page follows"),
    };
    match stream.step() {
        StreamStep::Emit(bytes) => assert_eq!(bytes, blob(4096)[904..]),
        _ => panic!("the first page is there"),
    }
    assert!(matches!(stream.step(), StreamStep::Fetch(3)));
    let item = stream.supply(Ok(Bytes::from(blob(4096))));
    assert_eq!(item, Some(Ok(Bytes::from(blob(808)))));
    assert!(matches!(stream.step(), StreamStep::End));
}

#[test]
fn plans_of_reads() {
    let full = plan_read(None, 4096);
    assert!(matches!(full, Ok(ReadPlan::Chunks(read))
        if read.chunk_begin == 1 && read.chunk_end == 1 + (u64::MAX - 1) / 4096));
    assert!(matches!(plan_read(Some((7, 7)), 4096), Ok(ReadPlan::HeadOnly)));
    assert!(matches!(plan_read(Some((8, 7)), 4096), Err(Error::BadRange)));
    assert_eq!(chunk_bounds(1, 4096), (0, 4096));
    assert_eq!(chunk_bounds(3, 5000), (10000, 15000));
    let last = 1 << 52;
    assert_eq!(chunk_bounds(last - 1, 4096), (u64::MAX - 8191, u64::MAX - 4095));
    assert_eq!(chunk_bounds(last, 4096), (u64::MAX - 4095, u64::MAX));
    assert_eq!(chunk_bounds(2, u64::MAX), (u64::MAX, u64::MAX));
}

#[test]
fn cached_reads_at_the_last_offsets_are_empty() {
    let mut memory = Memory::new();
    let hash = memory.put(b"abc".to_vec());
    let mut cached = Cached::new(4096);
    for start in [u64::MAX - 1, u64::MAX - 4096, u64::MAX - 9000] {
        let range = (start, u64::MAX);
        let read = cached_get(&mut cached, &memory, &hash, Some(range));
        assert_eq!(read, Ok(Vec::new()));
        assert_eq!(memory.get(&hash, Some(range)), Ok(Bytes::new()));
    }
    assert_eq!(
        cached_get(&mut cached, &memory, "none", Some((u64::MAX - 1, u64::MAX))),
        Err(Error::NotFound)
    );
}

#[test]
fn ranges_are_checked() {
    assert_eq!(check_range(None), Ok(()));
    assert_eq!(check_range(Some((3, 3))), Ok(()));
    assert_eq!(check_range(Some((3, 4))), Ok(()));
    assert_eq!(check_range(Some((4, 3))), Err(Error::BadRange));
    assert!(empty_read().is_empty());
    assert_eq!(empty_after_head(Ok(12)), Ok(Bytes::new()));
    assert_eq!(empty_after_head(Err(Error::NotFound)), Err(Error::NotFound));
}

#[test]
fn sizes_as_pages() {
    let page = size_page(Ok(0x0102_0304_0506_0708)).unwrap();
    assert_eq!(page, Bytes::from(vec![8, 7, 6, 5, 4, 3, 2, 1]));
    for size in [0, 1, 255, 256, 70000, u64::MAX - 1, u64::MAX] {
        assert_eq!(size_page(Ok(size)).unwrap(), Bytes::from(size.to_le_bytes().to_vec()));
        assert_eq!(page_size(size_page(Ok(size))), Ok(size));
    }
    assert_eq!(
        page_size(Ok(Bytes::from(vec![0; 7]))),
        Err(Error::Internal("could not convert slice to array".to_string()))
    );
    assert_eq!(page_size(Err(Error::NotFound)), Err(Error::NotFound));
    assert_eq!(size_page(Err(Error::BadRange)), Err(Error::BadRange));
}

#[test]
fn fallback_provider() {
    let mut p = (Memory::new(), Memory::new());
    let hash = p.0.put(vec![42; 1 << 21]);

    let answer = match fallback(p.0.get(&hash, None)) {
        FallbackStep::Return(bytes) => Ok(bytes),
        FallbackStep::AskSecondary => p.1.get(&hash, None),
    };
    assert!(matches!(answer, Ok(_)));
    assert!(matches!(p.0.get(&hash, None), Ok(_)));
    assert!(matches!(p.1.get(&hash, None), Err(Error::NotFound)));
}

#[test]
fn fallback_asks_the_secondary_after_any_error() {
    assert!(matches!(fallback(Ok(3)), FallbackStep::Return(3)));
    assert!(matches!(fallback::<u64>(Err(Error::NotFound)), FallbackStep::AskSecondary));
    assert!(matches!(fallback::<u64>(Err(Error::BadRange)), FallbackStep::AskSecondary));
    let internal = Err(Error::Internal(String::new()));
    assert!(matches!(fallback::<u64>(internal), FallbackStep::AskSecondary));
}

#[test]
fn memory_stores_by_content() {
    let mut memory = Memory::default();
    let hash = memory.put(b"abc".to_vec());
    assert_eq!(hash, "ba7816bf8f01cfea414140de5dae2223b00361a396177a9cb410ff61f20015ad");
    assert_eq!(memory.put(b"abc".to_vec()), hash);
    let empty = memory.put(Vec::new());
    assert_eq!(empty, "e3b0c44298fc1c149afbf4c8996fb92427ae41e4649b934ca495991b7852b855");
    assert_eq!(memory.head(&hash), Ok(3));
    assert_eq!(memory.head(&empty), Ok(0));
    assert_eq!(memory.head("abc"), Err(Error::NotFound));
    assert_eq!(memory.get(&hash, None), Ok(Bytes::from_static(b"abc")));
    assert_eq!(memory.get(&hash, Some((1, 2))), Ok(Bytes::from_static(b"b")));
    assert_eq!(memory.get(&hash, Some((1, 9))), Ok(Bytes::from_static(b"bc")));
    assert_eq!(memory.get(&hash, Some((3, 9))), Ok(Bytes::new()));
    assert_eq!(memory.get(&hash, Some((4, 9))), Ok(Bytes::new()));
    assert_eq!(memory.get(&hash, Some((2, 1))), Err(Error::BadRange));
    assert_eq!(memory.get("abc", Some((2, 1))), Err(Error::BadRange));
    assert_eq!(memory.get("abc", None), Err(Error::NotFound));
}

#[test]
fn a_page_is_fetched_once_at_a_time() {
    let mut cached: Cached<&str> = Cached::new(4096);
    assert!(matches!(cached.state.with_cache("h", 1), CacheLookup::Start));
    cached.state.start_request("h", 1, "first");
    assert!(matches!(cached.state.with_cache("h", 1), CacheLookup::Join));
    assert!(matches!(cached.state.with_cache("h", 2), CacheLookup::Start));
    assert!(matches!(cached.state.with_cache("g", 1), CacheLookup::Start));
    cached.state.start_request("h", 2, "second");
    assert_eq!(cached.state.pending_request("h", 1), Some(&"first"));
    assert_eq!(cached.state.pending_request("h", 2), Some(&"second"));
    assert_eq!(cached.state.pending_request("h", 3), None);
    assert_eq!(cached.stats().pending_requests, 2);
    assert!(cached.state.finish_fetch("h", 1));
    assert!(!cached.state.finish_fetch("h", 1));
    assert_eq!(cached.stats().pending_requests, 1);
    assert!(matches!(cached.state.with_cache("h", 1), CacheLookup::Start));
}

#[test]
fn ends_of_waits() {
    let mut cached: Cached<u8> = Cached::new(4096);
    cached.state.start_request("h", 12, 0);
    assert!(matches!(
        cached.state.finish_wait("h", 12, WaitOutcome::TimedOut),
        WaitAction::CallProvider
    ));
    assert!(matches!(
        cached.state.finish_wait("h", 12, WaitOutcome::Received(Err(Error::NotFound))),
        WaitAction::Return(Err(Error::NotFound))
    ));
    assert_eq!(cached.stats().pending_requests, 1);
    match cached.state.finish_wait("h", 12, WaitOutcome::Dropped) {
        WaitAction::Return(Err(Error::Internal(message))) => {
            assert_eq!(message, "pending request channel dropped hash=h n=12");
        }
        _ => panic!("a dropped request is an error"),
    }
    assert_eq!(cached.stats().pending_requests, 0);
}

#[test]
fn fetches_prefer_the_disk() {
    let mut cached: Cached<u8> = Cached::new(4096);
    let step = cached.state.try_fetch("h", 1, FetchEvent::Start(Err(Error::NotFound)));
    assert!(matches!(
        step,
        FetchStep::Done { result: Err(Error::NotFound), populate: None }
    ));
    let step = cached.state.try_fetch("h", 1, FetchEvent::DiskRead(Some(vec![1, 2])));
    assert!(matches!(step, FetchStep::Done { result: Ok(bytes), populate: None }
        if bytes == vec![1, 2]));
    assert!(matches!(cached.state.with_cache("h", 1), CacheLookup::Hit(bytes)
        if bytes == vec![1, 2]));
    let failed = FetchEvent::Fetched(Err(Error::Internal("down".to_string())));
    let step = cached.state.try_fetch("h", 2, failed);
    assert!(matches!(
        step,
        FetchStep::Done { result: Err(Error::Internal(_)), populate: None }
    ));
    assert!(matches!(cached.state.with_cache("h", 2), CacheLookup::Start));
}

#[test]
fn disk_writes() {
    let mut cached: Cached<u8> = Cached::new(4096);
    let start = |key| PopulateEvent::Start(key);
    let step = cached.state.populate_step("h", 7, start(Ok("k".to_string())));
    assert!(matches!(step, PopulateStep::CheckDisk(path) if path == "k/7"));
    let step = cached.state.populate_step("h", 7, start(Err(Error::NotFound)));
    assert!(matches!(step, PopulateStep::Stop(Some(Error::NotFound))));
    let step = cached.state.populate_step("h", 7, PopulateEvent::Checked(true));
    assert!(matches!(step, PopulateStep::Stop(None)));
    let step = cached.state.populate_step("h", 7, PopulateEvent::Checked(false));
    assert!(matches!(step, PopulateStep::CallProvider));
    cached.state.try_fetch("h", 7, FetchEvent::Fetched(Ok(Bytes::from_static(b"page"))));
    let step = cached.state.populate_step("h", 7, PopulateEvent::Checked(false));
    assert!(matches!(step, PopulateStep::Write(bytes) if bytes == "page"));
    let fetched = PopulateEvent::Fetched(Ok(Bytes::from_static(b"again")));
    let step = cached.state.populate_step("h", 7, fetched);
    assert!(matches!(step, PopulateStep::Write(bytes) if bytes == "again"));
    let step = cached.state.populate_step("h", 7, PopulateEvent::Fetched(Err(Error::BadRange)));
    assert!(matches!(step, PopulateStep::Stop(Some(Error::BadRange))));
}

#[test]
fn disk_writes_are_counted() {
    let mut cached: Cached<u8> = Cached::new(4096);
    cached.state.populate_disk_cache(100);
    cached.state.populate_disk_cache(23);
    assert_eq!(cached.stats().pending_disk_write_pages, 2);
    assert_eq!(cached.stats().pending_disk_write_bytes, 123);
    cached.state.populate_disk_cache_done(100);
    assert_eq!(cached.stats().pending_disk_write_pages, 1);
    assert_eq!(cached.stats().pending_disk_write_bytes, 23);
    cached.state.populate_disk_cache_done(23);
    assert_eq!(cached.stats().pending_disk_write_pages, 0);
    assert_eq!(cached.stats().pending_disk_write_bytes, 0);
}

#[test]
fn prefetching() {
    let mut cached: Cached<u8> = Cached::new(4096);
    assert_eq!(cached.prefetch_chunk(5), None);
    cached.set_prefetch_depth(3);
    assert_eq!(cached.prefetch_chunk(5), Some(8));
    cached.set_prefetch_depth(0);
    assert_eq!(cached.prefetch_chunk(5), None);
}

#[test]
fn all_requests_for_a_page_share_its_fetch() {
    let mut cached: Cached<&str> = Cached::new(4096);
    assert!(matches!(cached.state.with_cache("h", 1), CacheLookup::Start));
    cached.state.start_request("h", 1, "first");
    let page = Bytes::from_static(b"page");
    let mut joined = 0;
    let mut hits = 0;
    for round in 0..20 {
        match cached.state.with_cache("h", 1) {
            CacheLookup::Join => {
                assert_eq!(cached.state.pending_request("h", 1), Some(&"first"));
                joined += 1;
            }
            CacheLookup::Hit(bytes) => {
                assert_eq!(bytes, page);
                hits += 1;
            }
            CacheLookup::Start => panic!("the page is being fetched"),
        }
        cached.state.try_fetch("g", round, FetchEvent::Fetched(Ok(Bytes::from(vec![0; 4096]))));
        cached.state.finish_fetch("g", round);
        if round == 9 {
            cached.state.try_fetch("h", 1, FetchEvent::Fetched(Ok(page.clone())));
        }
    }
    assert_eq!((joined, hits), (10, 10));
    assert!(cached.state.finish_fetch("h", 1));
    for _ in 0..joined {
        let outcome = WaitOutcome::Received(Ok(page.clone()));
        assert!(matches!(cached.state.finish_wait("h", 1, outcome), WaitAction::Return(Ok(bytes))
            if bytes == page));
    }
}

#[test]
fn a_fetched_page_is_answered_until_it_leaves() {
    let mut cached: Cached<u8> = Cached::new(4096);
    cached.state.try_fetch("h", 1, FetchEvent::Fetched(Ok(Bytes::from_static(b"page"))));
    for n in 0..1000 {
        cached.state.try_fetch("g", n, FetchEvent::DiskRead(Some(vec![7; 1 << 18])));
        assert!(matches!(cached.state.with_cache("h", 1), CacheLookup::Hit(bytes)
            if bytes == "page"));
    }
    for n in 0..1000 {
        cached.state.try_fetch("f", n, FetchEvent::DiskRead(Some(vec![7; 1 << 18])));
    }
    assert!(matches!(cached.state.with_cache("h", 1), CacheLookup::Start));
}

#[test]
fn failed_fetches_are_not_kept() {
    let mut cached: Cached<u8> = Cached::new(4096);
    for error in [Error::NotFound, Error::Internal("down".to_string())] {
        assert!(matches!(cached.state.with_cache("h", 1), CacheLookup::Start));
        cached.state.start_request("h", 1, 0);
        let step = cached.state.try_fetch("h", 1, FetchEvent::Fetched(Err(error.clone())));
        assert!(matches!(step, FetchStep::Done { result: Err(given), populate: None }
            if given == error));
        cached.state.try_fetch("g", 1, FetchEvent::Fetched(Ok(Bytes::from_static(b"other"))));
        assert!(cached.state.finish_fetch("h", 1));
    }
    assert!(matches!(cached.state.with_cache("h", 1), CacheLookup::Start));
}

#[test]
fn a_size_is_asked_for_once() {
    let mut cached: Cached<u8> = Cached::new(4096);
    let event = FetchEvent::Fetched(size_page(Err(Error::NotFound)));
    cached.state.try_fetch("h", 0, event);
    assert!(matches!(cached.state.with_cache("h", 0), CacheLookup::Start));
    cached.state.try_fetch("h", 0, FetchEvent::Fetched(size_page(Ok(70000))));
    for n in 1..50 {
        cached.state.try_fetch("h", n, FetchEvent::Fetched(Ok(Bytes::from(vec![0; 4096]))));
        match cached.state.with_cache("h", 0) {
            CacheLookup::Hit(bytes) => assert_eq!(page_size(Ok(bytes)), Ok(70000)),
            _ => panic!("the size is in memory"),
        }
    }
    let mut restarted: Cached<u8> = Cached::new(4096);
    let on_disk = FetchEvent::DiskRead(Some(70000u64.to_le_bytes().to_vec()));
    match restarted.state.try_fetch("h", 0, on_disk) {
        FetchStep::Done { result, populate: None } => assert_eq!(page_size(result), Ok(70000)),
        _ => panic!("the size is on disk"),
    }
}

#[test]
fn many_disk_writes_are_counted() {
    let mut cached: Cached<u8> = Cached::new(4096);
    let mut pending = Vec::new();
    for i in 0..1000u64 {
        if i % 3 == 2 {
            let len = pending.remove((i as usize * 7) % pending.len());
            cached.state.populate_disk_cache_done(len);
        } else {
            cached.state.populate_disk_cache(i * i);
            pending.push(i * i);
        }
        assert_eq!(cached.stats().pending_disk_write_pages, pending.len() as u64);
        assert_eq!(cached.stats().pending_disk_write_bytes, pending.iter().sum::<u64>());
    }
    for len in pending {
        cached.state.populate_disk_cache_done(len);
    }
    assert_eq!(cached.stats().pending_disk_write_pages, 0);
    assert_eq!(cached.stats().pending_disk_write_bytes, 0);
}

/// A cache with its directory, as a server runs it, but with one request at a time.
struct OnDisk {
    cached: Cached<u32>,
    files: std::collections::BTreeMap<String, Vec<u8>>,
    provider_calls: u64,
}

impl OnDisk {
    fn new(pagesize: u64) -> OnDisk {
        OnDisk { cached: Cached::new(pagesize), files: Default::default(), provider_calls: 0 }
    }

    fn provide(&mut self, memory: &Memory, hash: &str, n: u64) -> Result<Bytes, Error> {
        self.provider_calls += 1;
        if n == 0 {
            size_page(memory.head(hash))
        } else {
            memory.get(hash, Some(chunk_bounds(n, self.cached.state.pagesize())))
        }
    }

    fn write(&mut self, memory: &Memory, hash: &str, n: u64) {
        let mut file = String::new();
        let mut event = PopulateEvent::Start(Ok(format!("k{}", hash)));
        loop {
            event = match self.cached.state.populate_step(hash, n, event) {
                PopulateStep::CheckDisk(path) => {
                    file = path;
                    PopulateEvent::Checked(self.files.contains_key(&file))
                }
                PopulateStep::CallProvider => {
                    PopulateEvent::Fetched(self.provide(memory, hash, n))
                }
                PopulateStep::Write(bytes) => {
                    self.files.insert(file, bytes.to_vec());
                    return;
                }
                PopulateStep::Stop(_) => return,
            };
        }
    }

    fn page(&mut self, memory: &Memory, hash: &str, n: u64) -> Result<Bytes, Error> {
        if let CacheLookup::Hit(bytes) = self.cached.state.with_cache(hash, n) {
            return Ok(bytes);
        }
        let mut event = FetchEvent::Start(Ok(format!("k{}", hash)));
        loop {
            event = match self.cached.state.try_fetch(hash, n, event) {
                FetchStep::ReadDisk(path) => FetchEvent::DiskRead(self.files.get(&path).cloned()),
                FetchStep::CallProvider => FetchEvent::Fetched(self.provide(memory, hash, n)),
                FetchStep::Done { result, populate } => {
                    if populate.is_some() {
                        self.write(memory, hash, n);
                    }
                    return result;
                }
            };
        }
    }

    fn get(&mut self, memory: &Memory, hash: &str, range: BlobRange) -> Result<Vec<u8>, Error> {
        let read = match self.cached.get(range)? {
            ReadPlan::HeadOnly => {
                let head = page_size(self.page(memory, hash, 0));
                return empty_after_head(head).map(|bytes| bytes.to_vec());
            }
            ReadPlan::Chunks(read) => read,
        };
        let mut stream = match read.first_chunk(self.page(memory, hash, read.chunk_begin)?) {
            FirstRead::Whole(bytes) => return Ok(bytes.to_vec()),
            FirstRead::Stream(stream) => stream,
        };
        let mut answer = Vec::new();
        loop {
            match stream.step() {
                StreamStep::Emit(bytes) => answer.extend_from_slice(&bytes),
                StreamStep::Fetch(n) => {
                    let page = self.page(memory, hash, n);
                    if let Some(item) = stream.supply(page) {
                        answer.extend_from_slice(&item?);
                    }
                }
                StreamStep::End => return Ok(answer),
            }
        }
    }
}

#[test]
fn vanishing_files_change_no_read() {
    let mut memory = Memory::new();
    let data = blob(50000);
    let hash = memory.put(data.clone());
    let mut small = OnDisk::new(4096);
    let mut large = OnDisk::new(9999);
    let ranges: [BlobRange; 7] = [
        None,
        Some((0, 1)),
        Some((4095, 4097)),
        Some((5000, 45000)),
        Some((49999, 90000)),
        Some((60000, 70000)),
        Some((3, 3)),
    ];
    for round in 0..40usize {
        let range = ranges[round % ranges.len()];
        let direct = memory.get(&hash, range).unwrap().to_vec();
        for system in [&mut small, &mut large] {
            assert_eq!(system.get(&memory, &hash, range), Ok(direct.clone()));
            assert_eq!(system.get(&memory, "none", range), Err(Error::NotFound));
            assert!(system.files.keys().all(|path| path.starts_with(&format!("k{}/", hash))));
            let victim = system.files.keys().nth(round % (system.files.len() + 1)).cloned();
            if let Some(path) = victim {
                system.files.remove(&path);
            }
            if round % 5 == 0 {
                // The memory is lost, as when the server starts anew, and the files stay.
                let pagesize = system.cached.state.pagesize();
                system.cached = Cached::new(pagesize);
            }
        }
    }
}

#[test]
fn pages_on_disk_are_not_asked_for_again() {
    let mut memory = Memory::new();
    let hash = memory.put(blob(20000));
    let mut system = OnDisk::new(4096);
    assert_eq!(system.get(&memory, &hash, None), Ok(blob(20000)));
    // Five pages, and the empty one behind them that ends the stream.
    assert_eq!(system.files.len(), 6);
    let calls = system.provider_calls;
    system.cached = Cached::new(4096);
    assert_eq!(system.get(&memory, &hash, None), Ok(blob(20000)));
    assert_eq!(system.provider_calls, calls);
}
