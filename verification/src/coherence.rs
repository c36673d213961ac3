//! What a cache answers, compared with the provider that it stands in front of.
//!
//! A cache keeps pages in memory and in files of its cache directory. Files may vanish from that
//! directory at any time. What is read through the cache is what the provider holds all the same.

use crate::cached::{
    fetch_next, law_page_path_names_page, law_page_paths_are_distinct, looked_up, page_path,
    populate_next, CacheView, FetchEventView, FetchStepView, PopulateEventView, PopulateStepView,
};
use crate::chunks::{
    answered, blob_page, law_bounds_hold_page, law_page_is_its_byte_range,
    law_paged_read_is_direct_read,
    law_read_needs_its_pages_only, law_read_pages_are_in_order, page_bounds, page_start,
    range_bounds, ChunkedRead,
};
use crate::error::Error;
use crate::history::{
    applied, fetch_run, law_fetch_asks_provider_once, ran, request_answer, CacheOp,
};
use crate::memory::{stored_get, stored_head};
use crate::page_cache::{
    distinct_pages, faithful, law_cache_stays_faithful, law_insert_keeps_pages_distinct,
    law_page_moves_to_back, PageKey,
};
use crate::range::{valid_range, BlobRange};
use crate::size::{
    law_size_page_is_little_endian, law_size_round_trip, le_bytes, page_of_size, size_of_page,
};
use crate::text::parsed_number;
use vstd::arithmetic::power::pow;
use vstd::prelude::*;

verus! {

/// The blobs that a provider stores, by their hashes.
pub type Blobs = Map<Seq<char>, Seq<u8>>;

/// The files of a cache directory, by their paths.
pub type Files = Map<Seq<char>, Seq<u8>>;

/// How the key that a blob is stored under is made from its hash.
pub type KeyOf = spec_fn(Seq<char>) -> Result<Seq<char>, Error>;

/// The page of a stored blob: its size, or a page of its bytes.
pub open spec fn stored_page(blobs: Blobs, pagesize: u64, key: PageKey) -> Seq<u8> {
    if key.1 == 0 {
        le_bytes(blobs[key.0].len(), 8)
    } else {
        blob_page(blobs[key.0], pagesize as int, key.1 as int)
    }
}

/// What the provider answers for a page.
pub open spec fn provided_page(
    blobs: Blobs,
    pagesize: u64,
    key: PageKey,
) -> Result<Seq<u8>, Error> {
    if blobs.contains_key(key.0) {
        Ok(stored_page(blobs, pagesize, key))
    } else {
        Err(Error::NotFound)
    }
}

/// The page of a key, where the provider has one.
pub open spec fn origin(blobs: Blobs, pagesize: u64) -> spec_fn(PageKey) -> Option<Seq<u8>> {
    |key: PageKey|
        match provided_page(blobs, pagesize, key) {
            Ok(data) => Some(data),
            Err(_) => None,
        }
}

/// What a provider answers for the bounds of a page, or for the size of a blob, is what is
/// provided for that page.
pub proof fn law_provider_gives_page(
    blobs: Blobs,
    pagesize: u64,
    hash: Seq<char>,
    n: u64,
    bounds: (u64, u64),
)
    requires
        blobs.contains_key(hash) ==> blobs[hash].len() <= u64::MAX,
        n > 0,
        (bounds.0 as int, bounds.1 as int) == page_bounds(n as int, pagesize as int),
    ensures
        stored_get(blobs, hash, Some(bounds)) == provided_page(blobs, pagesize, (hash, n)),
        page_of_size(stored_head(blobs, hash)) == provided_page(blobs, pagesize, (hash, 0)),
{
    if blobs.contains_key(hash) {
        law_bounds_hold_page(blobs[hash], pagesize as int, n as int);
    }
    assert(page_start(n as int, pagesize as int) + pagesize == page_start(n + 1, pagesize as int))
        by (nonlinear_arith);
}

/// The pages in memory are those that the provider has.
pub open spec fn coherent<R>(state: CacheView<R>, blobs: Blobs) -> bool {
    &&& distinct_pages(state.pages)
    &&& faithful(state.pages, origin(blobs, state.pagesize))
}

/// The file of a page, where its blob can have a key.
pub open spec fn page_file(key_of: KeyOf, key: PageKey) -> Option<Seq<char>> {
    match key_of(key.0) {
        Ok(blob_key) => Some(page_path(blob_key, key.1)),
        Err(_) => None,
    }
}

/// What is on disk for a page.
pub open spec fn page_on_disk(files: Files, key_of: KeyOf, key: PageKey) -> Option<Seq<u8>> {
    match page_file(key_of, key) {
        Some(path) => if files.contains_key(path) {
            Some(files[path])
        } else {
            None
        },
        None => None,
    }
}

/// The file of every page holds the page that the provider has, or there is no such file.
pub open spec fn disk_coherent(files: Files, blobs: Blobs, pagesize: u64, key_of: KeyOf) -> bool {
    forall|key: PageKey|
        (#[trigger] page_on_disk(files, key_of, key)) matches Some(data) ==> provided_page(
            blobs,
            pagesize,
            key,
        ) == Ok::<Seq<u8>, Error>(data)
}

/// No two blobs are stored under the same key.
pub open spec fn keys_distinct(key_of: KeyOf) -> bool {
    forall|a: Seq<char>, b: Seq<char>|
        #![trigger key_of(a), key_of(b)]
        key_of(a) is Ok && key_of(a) == key_of(b) ==> a == b
}

/// A fetch of a page and a write of it to the disk cache are about the same file, and no other
/// page has that file.
pub proof fn law_page_has_its_own_file(
    key_of: KeyOf,
    key: PageKey,
    other: PageKey,
    pages: Seq<(PageKey, Seq<u8>)>,
)
    requires
        keys_distinct(key_of),
    ensures
        page_file(key_of, key) matches Some(path) ==> {
            &&& fetch_next(key.1, FetchEventView::Start(key_of(key.0))) == FetchStepView::ReadDisk(
                path,
            )
            &&& populate_next(pages, key, PopulateEventView::Start(key_of(key.0)))
                == PopulateStepView::CheckDisk(path)
            &&& page_file(key_of, other) == Some(path) ==> other == key
        },
{
    if page_file(key_of, key) is Some && page_file(key_of, key) == page_file(key_of, other) {
        law_page_paths_are_distinct(
            key_of(key.0)->Ok_0,
            key.1,
            key_of(other.0)->Ok_0,
            other.1,
        );
    }
}

/// A cache with its directory.
#[verifier::reject_recursive_types(R)]
pub struct CacheSystem<R> {
    /// The shared state.
    pub memory: CacheView<R>,
    /// The files of the cache directory.
    pub files: Files,
    /// The pages that were read from a file, on their way into memory.
    pub reads: Set<(PageKey, Seq<u8>)>,
    /// The pages that are to be written, on their way to a file.
    pub writes: Set<(PageKey, Seq<u8>)>,
}

/// Something that happens to a cache and its directory.
#[verifier::reject_recursive_types(R)]
pub enum SystemOp<R> {
    /// An operation on the shared state.
    Memory(CacheOp<R>),
    /// A fetch reads the file of a page.
    ReadFile(PageKey),
    /// Something happens to a write of a page to the disk cache.
    Populate(PageKey, PopulateEventView),
    /// A page is written to its file.
    WriteFile(PageKey, Seq<u8>),
    /// The file at a path vanishes.
    DeleteFile(Seq<char>),
}

/// The cache and its directory after an operation.
pub open spec fn system_applied<R>(
    system: CacheSystem<R>,
    op: SystemOp<R>,
    key_of: KeyOf,
) -> CacheSystem<R> {
    match op {
        SystemOp::Memory(op) => CacheSystem { memory: applied(system.memory, op), ..system },
        SystemOp::ReadFile(key) => match page_on_disk(system.files, key_of, key) {
            Some(data) => CacheSystem { reads: system.reads.insert((key, data)), ..system },
            None => system,
        },
        SystemOp::Populate(key, event) => match populate_next(system.memory.pages, key, event) {
            PopulateStepView::Write(data) => CacheSystem {
                writes: system.writes.insert((key, data)),
                ..system
            },
            _ => system,
        },
        SystemOp::WriteFile(key, data) => match page_file(key_of, key) {
            Some(path) => CacheSystem { files: system.files.insert(path, data), ..system },
            None => system,
        },
        SystemOp::DeleteFile(path) => CacheSystem { files: system.files.remove(path), ..system },
    }
}

/// The cache and its directory after a history.
pub open spec fn system_ran<R>(
    system: CacheSystem<R>,
    ops: Seq<SystemOp<R>>,
    key_of: KeyOf,
) -> CacheSystem<R>
    decreases ops.len(),
{
    if ops.len() == 0 {
        system
    } else {
        system_applied(system_ran(system, ops.drop_last(), key_of), ops.last(), key_of)
    }
}

/// Whether an operation reports and does what it is about: a page that a fetch has from disk was
/// read from its file, a page that came from the provider is one that the provider has, and a
/// page that is written to a file is one that was to be written. The provider may fail.
pub open spec fn truthful<R>(system: CacheSystem<R>, op: SystemOp<R>, blobs: Blobs) -> bool {
    match op {
        SystemOp::Memory(CacheOp::Fetch(key, FetchEventView::DiskRead(Some(data)))) =>
            system.reads.contains((key, data)),
        SystemOp::Memory(CacheOp::Fetch(key, FetchEventView::Fetched(Ok(data)))) => provided_page(
            blobs,
            system.memory.pagesize,
            key,
        ) == Ok::<Seq<u8>, Error>(data),
        SystemOp::Populate(key, PopulateEventView::Fetched(Ok(data))) => provided_page(
            blobs,
            system.memory.pagesize,
            key,
        ) == Ok::<Seq<u8>, Error>(data),
        SystemOp::WriteFile(key, data) => system.writes.contains((key, data)),
        _ => true,
    }
}

/// Every operation of a history is truthful when it happens.
pub open spec fn truthful_history<R>(
    system: CacheSystem<R>,
    ops: Seq<SystemOp<R>>,
    blobs: Blobs,
    key_of: KeyOf,
) -> bool {
    forall|i: int|
        0 <= i < ops.len() ==> truthful(
            system_ran(system, ops.take(i), key_of),
            #[trigger] ops[i],
            blobs,
        )
}

/// Every page in memory, on disk and on its way is the one that the provider has.
pub open spec fn system_coherent<R>(
    system: CacheSystem<R>,
    blobs: Blobs,
    key_of: KeyOf,
) -> bool {
    &&& coherent(system.memory, blobs)
    &&& disk_coherent(system.files, blobs, system.memory.pagesize, key_of)
    &&& forall|page: (PageKey, Seq<u8>)| #[trigger]
        system.reads.contains(page) ==> provided_page(blobs, system.memory.pagesize, page.0) == Ok::<
            Seq<u8>,
            Error,
        >(page.1)
    &&& forall|page: (PageKey, Seq<u8>)| #[trigger]
        system.writes.contains(page) ==> provided_page(blobs, system.memory.pagesize, page.0)
            == Ok::<Seq<u8>, Error>(page.1)
}

/// An empty cache is coherent, also in front of a directory that an earlier cache with the same
/// page size left behind.
pub proof fn law_empty_cache_is_coherent<R>(
    system: CacheSystem<R>,
    blobs: Blobs,
    key_of: KeyOf,
)
    requires
        system.memory.pages.len() == 0,
        system.reads == Set::<(PageKey, Seq<u8>)>::empty(),
        system.writes == Set::<(PageKey, Seq<u8>)>::empty(),
        disk_coherent(system.files, blobs, system.memory.pagesize, key_of),
    ensures
        system_coherent(system, blobs, key_of),
        disk_coherent(Map::empty(), blobs, system.memory.pagesize, key_of),
{
}

/// The disk cache stays coherent when any file vanishes, and when what a write to it decides to
/// write is written.
pub proof fn law_disk_stays_coherent<R>(
    state: CacheView<R>,
    files: Files,
    blobs: Blobs,
    key_of: KeyOf,
    path: Seq<char>,
    key: PageKey,
    event: PopulateEventView,
)
    requires
        coherent(state, blobs),
        disk_coherent(files, blobs, state.pagesize, key_of),
        keys_distinct(key_of),
        event matches PopulateEventView::Fetched(Ok(data)) ==> provided_page(
            blobs,
            state.pagesize,
            key,
        ) == Ok::<Seq<u8>, Error>(data),
    ensures
        disk_coherent(files.remove(path), blobs, state.pagesize, key_of),
        populate_next(state.pages, key, event) matches PopulateStepView::Write(data) ==> {
            &&& provided_page(blobs, state.pagesize, key) == Ok::<Seq<u8>, Error>(data)
            &&& page_file(key_of, key) matches Some(file) ==> disk_coherent(
                files.insert(file, data),
                blobs,
                state.pagesize,
                key_of,
            )
        },
{
    assert forall|k: PageKey| (#[trigger] page_on_disk(files.remove(path), key_of, k)) is Some implies
        page_on_disk(files.remove(path), key_of, k) == page_on_disk(files, key_of, k) by {}
    if let PopulateStepView::Write(data) = populate_next(state.pages, key, event) {
        law_cache_stays_faithful(state.pages, key, data, origin(blobs, state.pagesize));
        if let Some(file) = page_file(key_of, key) {
            lemma_write_keeps_coherent(files, blobs, state.pagesize, key_of, key, data);
        }
    }
}

/// Writing the page that the provider has to its file keeps the disk cache coherent.
proof fn lemma_write_keeps_coherent(
    files: Files,
    blobs: Blobs,
    pagesize: u64,
    key_of: KeyOf,
    key: PageKey,
    data: Seq<u8>,
)
    requires
        disk_coherent(files, blobs, pagesize, key_of),
        keys_distinct(key_of),
        provided_page(blobs, pagesize, key) == Ok::<Seq<u8>, Error>(data),
        page_file(key_of, key) is Some,
    ensures
        disk_coherent(files.insert(page_file(key_of, key)->0, data), blobs, pagesize, key_of),
{
    let after = files.insert(page_file(key_of, key)->0, data);
    assert forall|k: PageKey| (#[trigger] page_on_disk(after, key_of, k)) matches Some(found) implies
        provided_page(blobs, pagesize, k) == Ok::<Seq<u8>, Error>(
        page_on_disk(after, key_of, k)->0,
    ) by {
        law_page_has_its_own_file(key_of, key, k, Seq::empty());
        if k != key {
            assert(page_on_disk(after, key_of, k) == page_on_disk(files, key_of, k));
        }
    }
}

/// One operation keeps a cache and its directory coherent.
proof fn lemma_system_step<R>(
    system: CacheSystem<R>,
    op: SystemOp<R>,
    blobs: Blobs,
    key_of: KeyOf,
)
    requires
        system_coherent(system, blobs, key_of),
        truthful(system, op, blobs),
        keys_distinct(key_of),
    ensures
        system_coherent(system_applied(system, op, key_of), blobs, key_of),
        system_applied(system, op, key_of).memory.pagesize == system.memory.pagesize,
{
    let pages = system.memory.pages;
    let pagesize = system.memory.pagesize;
    match op {
        SystemOp::Memory(op) => match op {
            CacheOp::Request(key) => {
                law_cache_stays_faithful(pages, key, Seq::empty(), origin(blobs, pagesize));
                law_insert_keeps_pages_distinct(pages, key, Seq::empty());
            },
            CacheOp::Fetch(key, event) => {
                let brought = match event {
                    FetchEventView::DiskRead(Some(data)) => Some(data),
                    FetchEventView::Fetched(Ok(data)) => Some(data),
                    _ => None,
                };
                if let Some(data) = brought {
                    assert(provided_page(blobs, pagesize, key) == Ok::<Seq<u8>, Error>(data));
                    law_cache_stays_faithful(pages, key, data, origin(blobs, pagesize));
                    law_insert_keeps_pages_distinct(pages, key, data);
                }
            },
            _ => {},
        },
        SystemOp::ReadFile(_) => {},
        SystemOp::Populate(key, event) => {
            law_disk_stays_coherent(
                system.memory,
                system.files,
                blobs,
                key_of,
                Seq::empty(),
                key,
                event,
            );
        },
        SystemOp::WriteFile(key, data) => {
            if page_file(key_of, key) is Some {
                lemma_write_keeps_coherent(system.files, blobs, pagesize, key_of, key, data);
            }
        },
        SystemOp::DeleteFile(path) => {
            law_disk_stays_coherent(
                system.memory,
                system.files,
                blobs,
                key_of,
                path,
                (Seq::empty(), 0),
                PopulateEventView::Checked(true),
            );
        },
    }
}

/// Whatever requests, fetches, evictions and disk writes come one after the other, and whichever
/// files vanish in between, every page in memory and on disk is the one that the provider has.
pub proof fn law_system_stays_coherent<R>(
    system: CacheSystem<R>,
    ops: Seq<SystemOp<R>>,
    blobs: Blobs,
    key_of: KeyOf,
)
    requires
        system_coherent(system, blobs, key_of),
        truthful_history(system, ops, blobs, key_of),
        keys_distinct(key_of),
    ensures
        system_coherent(system_ran(system, ops, key_of), blobs, key_of),
        system_ran(system, ops, key_of).memory.pagesize == system.memory.pagesize,
    decreases ops.len(),
{
    if ops.len() > 0 {
        let init = ops.drop_last();
        assert(ops.take(ops.len() - 1) =~= init);
        lemma_truthful_part(system, ops, blobs, key_of, ops.len() - 1);
        law_system_stays_coherent(system, init, blobs, key_of);
        lemma_system_step(
            system_ran(system, init, key_of),
            ops[ops.len() - 1],
            blobs,
            key_of,
        );
    }
}

/// The first part of a truthful history is truthful.
proof fn lemma_truthful_part<R>(
    system: CacheSystem<R>,
    ops: Seq<SystemOp<R>>,
    blobs: Blobs,
    key_of: KeyOf,
    len: int,
)
    requires
        truthful_history(system, ops, blobs, key_of),
        0 <= len <= ops.len(),
    ensures
        truthful_history(system, ops.take(len), blobs, key_of),
{
    let part = ops.take(len);
    assert forall|i: int| 0 <= i < part.len() implies truthful(
        system_ran(system, part.take(i), key_of),
        #[trigger] part[i],
        blobs,
    ) by {
        assert(part.take(i) =~= ops.take(i));
        assert(part[i] == ops[i]);
    }
}

/// The pages in memory stay those that the provider has, over any history whose fetches bring in
/// no others.
pub proof fn law_memory_stays_coherent<R>(
    state: CacheView<R>,
    ops: Seq<CacheOp<R>>,
    blobs: Blobs,
)
    requires
        coherent(state, blobs),
        forall|i: int|
            0 <= i < ops.len() ==> match #[trigger] ops[i] {
                CacheOp::Fetch(key, FetchEventView::DiskRead(Some(data))) => provided_page(
                    blobs,
                    state.pagesize,
                    key,
                ) == Ok::<Seq<u8>, Error>(data),
                CacheOp::Fetch(key, FetchEventView::Fetched(Ok(data))) => provided_page(
                    blobs,
                    state.pagesize,
                    key,
                ) == Ok::<Seq<u8>, Error>(data),
                _ => true,
            },
    ensures
        coherent(ran(state, ops), blobs),
        ran(state, ops).pagesize == state.pagesize,
    decreases ops.len(),
{
    if ops.len() > 0 {
        let init = ops.drop_last();
        assert(forall|i: int| 0 <= i < init.len() ==> #[trigger] init[i] == ops[i]);
        law_memory_stays_coherent(state, init, blobs);
        let pages = ran(state, init).pages;
        let source = origin(blobs, state.pagesize);
        match ops[ops.len() - 1] {
            CacheOp::Request(key) => {
                law_cache_stays_faithful(pages, key, Seq::empty(), source);
                law_insert_keeps_pages_distinct(pages, key, Seq::empty());
            },
            CacheOp::Fetch(key, FetchEventView::DiskRead(Some(data))) => {
                law_cache_stays_faithful(pages, key, data, source);
                law_insert_keeps_pages_distinct(pages, key, data);
            },
            CacheOp::Fetch(key, FetchEventView::Fetched(Ok(data))) => {
                law_cache_stays_faithful(pages, key, data, source);
                law_insert_keeps_pages_distinct(pages, key, data);
            },
            _ => {},
        }
    }
}

/// What a request for a page is answered: the page in memory, or else the outcome of the fetch
/// that it starts or waits for. `state` is the state in which the request looked for the page, and
/// `files` are the files that there were when the fetch read the disk cache.
pub open spec fn served_page<R>(
    state: CacheView<R>,
    files: Files,
    blobs: Blobs,
    key_of: KeyOf,
    key: PageKey,
) -> Result<Seq<u8>, Error> {
    let run = fetch_run(
        key.1,
        FetchEventView::Start(key_of(key.0)),
        page_on_disk(files, key_of, key),
        provided_page(blobs, state.pagesize, key),
    );
    match request_answer(looked_up(state, key), run.result) {
        Some(answer) => answer,
        None => run.result,
    }
}

/// A request for a page is answered what the provider answers, whether the page comes from memory,
/// from disk or from the provider.
pub proof fn law_served_page_is_provided_page<R>(
    state: CacheView<R>,
    files: Files,
    blobs: Blobs,
    key_of: KeyOf,
    key: PageKey,
)
    requires
        coherent(state, blobs),
        disk_coherent(files, blobs, state.pagesize, key_of),
        key_of(key.0) is Ok,
    ensures
        fetch_run(
            key.1,
            FetchEventView::Start(key_of(key.0)),
            page_on_disk(files, key_of, key),
            provided_page(blobs, state.pagesize, key),
        ).result == provided_page(blobs, state.pagesize, key),
        served_page(state, files, blobs, key_of, key) == provided_page(blobs, state.pagesize, key),
{
    law_fetch_asks_provider_once(
        key.1,
        key_of(key.0),
        page_on_disk(files, key_of, key),
        provided_page(blobs, state.pagesize, key),
    );
    law_cache_stays_faithful(state.pages, key, Seq::empty(), origin(blobs, state.pagesize));
}

/// What a request for a page is answered in the course of a history: `looked` operations had
/// happened when it looked for the page, and `read` when the fetch that it waited for, if any, read
/// the disk cache.
pub open spec fn served_at<R>(
    system: CacheSystem<R>,
    ops: Seq<SystemOp<R>>,
    blobs: Blobs,
    key_of: KeyOf,
    key: PageKey,
    looked: int,
    read: int,
) -> Result<Seq<u8>, Error> {
    served_page(
        system_ran(system, ops.take(looked), key_of).memory,
        system_ran(system, ops.take(read), key_of).files,
        blobs,
        key_of,
        key,
    )
}

/// At every moment of a history a request for a page is answered what the provider answers.
pub proof fn law_page_is_served_at_any_time<R>(
    system: CacheSystem<R>,
    ops: Seq<SystemOp<R>>,
    blobs: Blobs,
    key_of: KeyOf,
    key: PageKey,
    looked: int,
    read: int,
)
    requires
        system_coherent(system, blobs, key_of),
        truthful_history(system, ops, blobs, key_of),
        keys_distinct(key_of),
        key_of(key.0) is Ok,
        0 <= looked <= ops.len(),
        0 <= read <= ops.len(),
    ensures
        served_at(system, ops, blobs, key_of, key, looked, read) == provided_page(
            blobs,
            system.memory.pagesize,
            key,
        ),
{
    lemma_truthful_part(system, ops, blobs, key_of, looked);
    lemma_truthful_part(system, ops, blobs, key_of, read);
    law_system_stays_coherent(system, ops.take(looked), blobs, key_of);
    law_system_stays_coherent(system, ops.take(read), blobs, key_of);
    law_served_page_is_provided_page(
        system_ran(system, ops.take(looked), key_of).memory,
        system_ran(system, ops.take(read), key_of).files,
        blobs,
        key_of,
        key,
    );
}

/// What a read through the cache is answered in the course of a history, where page `n` is served
/// at the moments `looked(n)` and `read_at(n)`.
pub open spec fn cached_read<R>(
    system: CacheSystem<R>,
    ops: Seq<SystemOp<R>>,
    blobs: Blobs,
    key_of: KeyOf,
    hash: Seq<char>,
    read: ChunkedRead,
    looked: spec_fn(int) -> int,
    read_at: spec_fn(int) -> int,
) -> Seq<u8> {
    answered(
        read,
        |n: int|
            served_at(system, ops, blobs, key_of, (hash, n as u64), looked(n), read_at(n))->Ok_0,
    )
}

/// Every moment is one of a history of `len` operations.
pub open spec fn moments_within(moment: spec_fn(int) -> int, len: nat) -> bool {
    forall|n: int| 0 <= #[trigger] moment(n) <= len
}

/// A read through the cache gives what a read of the stored blob gives, for every range and every
/// page size, and whenever each of its pages is served: neither evictions nor files that vanish
/// change what is read. None of its pages fails.
pub proof fn law_cached_read_is_direct_read<R>(
    system: CacheSystem<R>,
    ops: Seq<SystemOp<R>>,
    blobs: Blobs,
    key_of: KeyOf,
    hash: Seq<char>,
    range: BlobRange,
    read: ChunkedRead,
    looked: spec_fn(int) -> int,
    read_at: spec_fn(int) -> int,
)
    requires
        system_coherent(system, blobs, key_of),
        truthful_history(system, ops, blobs, key_of),
        keys_distinct(key_of),
        key_of(hash) is Ok,
        blobs.contains_key(hash),
        blobs[hash].len() <= u64::MAX,
        valid_range(range),
        read.wf(),
        (read.start, read.end) == range_bounds(range),
        read.pagesize == system.memory.pagesize,
        moments_within(looked, ops.len()),
        moments_within(read_at, ops.len()),
    ensures
        forall|n: int|
            read.chunk_begin <= n <= read.chunk_end ==> (#[trigger] served_at(
                system,
                ops,
                blobs,
                key_of,
                (hash, n as u64),
                looked(n),
                read_at(n),
            )) is Ok,
        Ok::<Seq<u8>, Error>(
            cached_read(system, ops, blobs, key_of, hash, read, looked, read_at),
        ) == stored_get(blobs, hash, range),
{
    let served = |n: int|
        served_at(system, ops, blobs, key_of, (hash, n as u64), looked(n), read_at(n))->Ok_0;
    let direct = |n: int| blob_page(blobs[hash], read.pagesize as int, n);
    assert forall|n: int| read.chunk_begin <= n <= read.chunk_end implies (#[trigger] served_at(
        system,
        ops,
        blobs,
        key_of,
        (hash, n as u64),
        looked(n),
        read_at(n),
    )) == Ok::<Seq<u8>, Error>(direct(n)) by {
        law_read_pages_are_in_order(read, n);
        law_page_is_served_at_any_time(
            system,
            ops,
            blobs,
            key_of,
            (hash, n as u64),
            looked(n),
            read_at(n),
        );
    }
    assert forall|n: int| read.chunk_begin <= n <= read.chunk_end implies #[trigger] served(n)
        == direct(n) by {
        assert(served_at(system, ops, blobs, key_of, (hash, n as u64), looked(n), read_at(n))
            == Ok::<Seq<u8>, Error>(direct(n)));
    }
    law_read_needs_its_pages_only(read, served, direct);
    law_paged_read_is_direct_read(blobs[hash], range, read);
}

/// Two caches in front of the same blobs answer a read alike, whatever their page sizes are and
/// whatever has happened to each of them and to its directory. In particular a read that is
/// repeated gives the same again.
pub proof fn law_caches_answer_alike<R>(
    first: CacheSystem<R>,
    first_ops: Seq<SystemOp<R>>,
    first_read: ChunkedRead,
    second: CacheSystem<R>,
    second_ops: Seq<SystemOp<R>>,
    second_read: ChunkedRead,
    blobs: Blobs,
    key_of: KeyOf,
    hash: Seq<char>,
    range: BlobRange,
    looked: (spec_fn(int) -> int, spec_fn(int) -> int),
    read_at: (spec_fn(int) -> int, spec_fn(int) -> int),
)
    requires
        system_coherent(first, blobs, key_of),
        truthful_history(first, first_ops, blobs, key_of),
        first_read.wf(),
        (first_read.start, first_read.end) == range_bounds(range),
        first_read.pagesize == first.memory.pagesize,
        moments_within(looked.0, first_ops.len()),
        moments_within(read_at.0, first_ops.len()),
        system_coherent(second, blobs, key_of),
        truthful_history(second, second_ops, blobs, key_of),
        second_read.wf(),
        (second_read.start, second_read.end) == range_bounds(range),
        second_read.pagesize == second.memory.pagesize,
        moments_within(looked.1, second_ops.len()),
        moments_within(read_at.1, second_ops.len()),
        keys_distinct(key_of),
        key_of(hash) is Ok,
        blobs.contains_key(hash),
        blobs[hash].len() <= u64::MAX,
        valid_range(range),
    ensures
        cached_read(first, first_ops, blobs, key_of, hash, first_read, looked.0, read_at.0)
            == cached_read(second, second_ops, blobs, key_of, hash, second_read, looked.1, read_at.1),
{
    law_cached_read_is_direct_read(
        first,
        first_ops,
        blobs,
        key_of,
        hash,
        range,
        first_read,
        looked.0,
        read_at.0,
    );
    law_cached_read_is_direct_read(
        second,
        second_ops,
        blobs,
        key_of,
        hash,
        range,
        second_read,
        looked.1,
        read_at.1,
    );
}

/// A blob that the provider does not have is not found through the cache either, in whichever page
/// it is looked for and whatever has happened before.
pub proof fn law_missing_blob_is_not_found<R>(
    system: CacheSystem<R>,
    ops: Seq<SystemOp<R>>,
    blobs: Blobs,
    key_of: KeyOf,
    key: PageKey,
    looked: int,
    read: int,
    range: BlobRange,
)
    requires
        system_coherent(system, blobs, key_of),
        truthful_history(system, ops, blobs, key_of),
        keys_distinct(key_of),
        key_of(key.0) is Ok,
        !blobs.contains_key(key.0),
        valid_range(range),
        0 <= looked <= ops.len(),
        0 <= read <= ops.len(),
    ensures
        served_at(system, ops, blobs, key_of, key, looked, read) == stored_get(blobs, key.0, range),
        stored_get(blobs, key.0, range) == Err::<Seq<u8>, Error>(Error::NotFound),
{
    law_page_is_served_at_any_time(system, ops, blobs, key_of, key, looked, read);
}

/// The size that the cache answers is what the provider answers, the error for a blob that it does
/// not have included, whatever has happened before.
pub proof fn law_cached_size_is_stored_size<R>(
    system: CacheSystem<R>,
    ops: Seq<SystemOp<R>>,
    blobs: Blobs,
    key_of: KeyOf,
    hash: Seq<char>,
    looked: int,
    read: int,
)
    requires
        system_coherent(system, blobs, key_of),
        truthful_history(system, ops, blobs, key_of),
        keys_distinct(key_of),
        key_of(hash) is Ok,
        blobs.contains_key(hash) ==> blobs[hash].len() <= u64::MAX,
        0 <= looked <= ops.len(),
        0 <= read <= ops.len(),
    ensures
        ({
            let page = served_at(system, ops, blobs, key_of, (hash, 0), looked, read);
            &&& page matches Ok(data) ==> data.len() == 8
            &&& size_of_page(page) == stored_head(blobs, hash)
        }),
{
    law_page_is_served_at_any_time(system, ops, blobs, key_of, (hash, 0), looked, read);
    if blobs.contains_key(hash) {
        law_size_round_trip(blobs[hash].len() as u64);
    }
}

/// A write of a page to the disk cache, from an event on, to its end.
pub struct PopulateRun {
    /// What it does last.
    pub last: PopulateStepView,
    /// The path that it looked at last.
    pub path: Option<Seq<char>>,
    /// How often it asks the provider.
    pub provider_calls: nat,
}

/// How many events of a write can still follow.
pub open spec fn write_events_left(event: PopulateEventView) -> nat {
    match event {
        PopulateEventView::Start(_) => 2,
        PopulateEventView::Checked(_) => 1,
        PopulateEventView::Fetched(_) => 0,
    }
}

/// The write of a page to the disk cache from `event` on, where `on_disk` is whether its file is
/// found, `pages` are those in memory, and the provider answers `reply`.
pub open spec fn populate_run(
    pages: Seq<(PageKey, Seq<u8>)>,
    key: PageKey,
    event: PopulateEventView,
    on_disk: bool,
    reply: Result<Seq<u8>, Error>,
) -> PopulateRun
    decreases write_events_left(event),
{
    match populate_next(pages, key, event) {
        PopulateStepView::CheckDisk(path) if write_events_left(event) == 2 => PopulateRun {
            path: Some(path),
            ..populate_run(pages, key, PopulateEventView::Checked(on_disk), on_disk, reply)
        },
        PopulateStepView::CallProvider if write_events_left(event) == 1 => {
            let rest = populate_run(pages, key, PopulateEventView::Fetched(reply), on_disk, reply);
            PopulateRun { provider_calls: rest.provider_calls + 1, ..rest }
        },
        last => PopulateRun { last, path: None, provider_calls: 0 },
    }
}

/// A page of any length that is not on disk gets there: where it is in memory, a write of it ends
/// by writing exactly its bytes to its file, without asking the provider. Where it has left memory
/// the provider is asked once, and what it answers is written. The next fetch of the page then
/// reads these bytes from disk, without asking the provider, whatever that would answer. A page
/// that is on disk is left alone, and where there is nothing to write the write tells why.
pub proof fn law_page_gets_to_disk(
    pages: Seq<(PageKey, Seq<u8>)>,
    files: Files,
    key: PageKey,
    blob_key: Seq<char>,
    key_of: KeyOf,
    i: int,
    reply: Result<Seq<u8>, Error>,
    later_reply: Result<Seq<u8>, Error>,
)
    requires
        distinct_pages(pages),
        key_of(key.0) == Ok::<Seq<char>, Error>(blob_key),
    ensures
        ({
            let start = PopulateEventView::Start(key_of(key.0));
            let run = populate_run(pages, key, start, false, reply);
            let in_memory = 0 <= i < pages.len() && pages[i].0 == key;
            let nowhere = forall|j: int| 0 <= j < pages.len() ==> (#[trigger] pages[j]).0 != key;
            let data = if in_memory { pages[i].1 } else { reply->Ok_0 };
            &&& in_memory || (nowhere && reply is Ok) ==> {
                let path = run.path->0;
                let after = files.insert(path, data);
                let fetch = fetch_run(
                    key.1,
                    FetchEventView::Start(key_of(key.0)),
                    page_on_disk(after, key_of, key),
                    later_reply,
                );
                &&& run.last == PopulateStepView::Write(data)
                &&& run.path is Some
                &&& path.take(blob_key.len() as int) == blob_key
                &&& path[blob_key.len() as int] == '/'
                &&& parsed_number(path.skip(blob_key.len() as int + 1)) == Some(key.1)
                &&& fetch_next(key.1, FetchEventView::Start(key_of(key.0)))
                    == FetchStepView::ReadDisk(path)
                &&& page_on_disk(after, key_of, key) == Some(data)
                &&& fetch.result == Ok::<Seq<u8>, Error>(data)
                &&& fetch.provider_calls == 0
                &&& fetch.populate is None
            }
            &&& in_memory ==> run.provider_calls == 0
            &&& nowhere ==> run.provider_calls == 1
            &&& nowhere && reply is Err ==> run.last == PopulateStepView::Stop(
                Some(reply->Err_0),
            )
            &&& populate_run(pages, key, start, true, reply).last == PopulateStepView::Stop(None)
            &&& populate_run(pages, key, start, true, reply).provider_calls == 0
        }),
{
    reveal_with_fuel(populate_run, 4);
    law_page_path_names_page(blob_key, key.1);
    if 0 <= i < pages.len() && pages[i].0 == key {
        law_page_moves_to_back(pages, i, Seq::empty());
        law_fetch_asks_provider_once(key.1, key_of(key.0), Some(pages[i].1), later_reply);
    } else if reply is Ok {
        law_fetch_asks_provider_once(key.1, key_of(key.0), Some(reply->Ok_0), later_reply);
    }
}

/// A blob that can have no key is not written to the disk cache, and the write tells why.
pub proof fn law_page_without_key_is_not_written(
    pages: Seq<(PageKey, Seq<u8>)>,
    key: PageKey,
    error: Error,
    on_disk: bool,
    reply: Result<Seq<u8>, Error>,
)
    ensures
        ({
            let run = populate_run(pages, key, PopulateEventView::Start(Err(error)), on_disk, reply);
            &&& run.last == PopulateStepView::Stop(Some(error))
            &&& run.provider_calls == 0
        }),
{
    reveal_with_fuel(populate_run, 4);
}

/// The pages that are kept are those of the blob: page 0 holds the eight bytes of its size, and
/// every other page its byte range of the blob.
pub proof fn law_kept_pages_are_of_the_blob(
    blobs: Blobs,
    pagesize: u64,
    hash: Seq<char>,
    n: u64,
    i: int,
)
    requires
        pagesize > 0,
        blobs.contains_key(hash),
        blobs[hash].len() <= u64::MAX,
    ensures
        ({
            let blob = blobs[hash];
            let page = provided_page(blobs, pagesize, (hash, n));
            &&& page is Ok
            &&& n == 0 ==> {
                &&& page->Ok_0.len() == 8
                &&& 0 <= i < 8 ==> page->Ok_0[i] == (blob.len() as int / pow(256, i as nat)) % 256
            }
            &&& n > 0 ==> {
                &&& 0 <= i < page->Ok_0.len() ==> page->Ok_0[i] == blob[(n - 1) * pagesize + i]
                &&& n * pagesize <= blob.len() ==> page->Ok_0.len() == pagesize
                &&& (n - 1) * pagesize >= blob.len() ==> page->Ok_0.len() == 0
                &&& (n - 1) * pagesize < blob.len() < n * pagesize ==> page->Ok_0.len()
                    == blob.len() - (n - 1) * pagesize
            }
        }),
        !blobs.remove(hash).contains_key(hash),
        provided_page(blobs.remove(hash), pagesize, (hash, n)) == Err::<Seq<u8>, Error>(
            Error::NotFound,
        ),
{
    let size = blobs[hash].len() as u64;
    if n == 0 {
        law_size_round_trip(size);
        if 0 <= i < 8 {
            law_size_page_is_little_endian(size, i as nat, Error::NotFound);
        }
    } else {
        law_page_is_its_byte_range(blobs[hash], pagesize as int, n as int, i);
    }
}

} // verus!
