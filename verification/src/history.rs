//! What holds of a cache over time.
//!
//! Requests, fetches and disk writes run side by side, and each of them works on the shared state
//! one operation at a time. A history is the sequence of the operations of all of them, in the
//! order in which they came. A request that is abandoned has no further operations.

use crate::cached::{
    counted, fetch_next, fetched, finished, looked_up, page_of_event, requested, started, uncounted,
    waited, wrapped, CacheView, FetchEventView, FetchStepView, LookupView, WaitOutcome,
};
use crate::error::Error;
use crate::page_cache::{
    distinct_pages, has_page, law_insert_keeps_pages_distinct, law_inserted_page_is_found,
    law_lookup_keeps_pages, law_only_inserted_page_appears, law_oversized_page_empties_cache, law_page_keeps_its_data,
    page_data, PageKey,
};
use crate::size::{law_size_round_trip, le_bytes, page_of_size, size_of_page};
use vstd::prelude::*;

verus! {

/// An operation on the state of a cache.
#[verifier::reject_recursive_types(R)]
pub enum CacheOp<R> {
    /// A request for a page looks where it is to come from.
    Request(PageKey),
    /// A fetch of a page starts.
    Start(PageKey, R),
    /// Something happens to a fetch of a page.
    Fetch(PageKey, FetchEventView),
    /// A fetch of a page ends.
    Finish(PageKey),
    /// Waiting for a page ends.
    Wait(PageKey, WaitOutcome),
    /// A page of this length waits to be written to disk.
    BeginWrite(u64),
    /// A page of this length no longer waits to be written to disk.
    EndWrite(u64),
}

/// The state after an operation.
pub open spec fn applied<R>(state: CacheView<R>, op: CacheOp<R>) -> CacheView<R> {
    match op {
        CacheOp::Request(key) => requested(state, key),
        CacheOp::Start(key, receiver) => started(state, key, receiver),
        CacheOp::Fetch(key, event) => fetched(state, key, event),
        CacheOp::Finish(key) => finished(state, key),
        CacheOp::Wait(key, outcome) => waited(state, key, outcome),
        CacheOp::BeginWrite(len) => counted(state, len),
        CacheOp::EndWrite(len) => uncounted(state, len),
    }
}

/// The state after a history.
pub open spec fn ran<R>(state: CacheView<R>, ops: Seq<CacheOp<R>>) -> CacheView<R>
    decreases ops.len(),
{
    if ops.len() == 0 {
        state
    } else {
        applied(ran(state, ops.drop_last()), ops.last())
    }
}

/// A fetch is only started where a request found that the page has to be fetched.
pub open spec fn orderly<R>(state: CacheView<R>, ops: Seq<CacheOp<R>>) -> bool {
    forall|i: int|
        0 <= i < ops.len() ==> ((#[trigger] ops[i]) matches CacheOp::Start(key, _) ==> looked_up(
            ran(state, ops.take(i)),
            key,
        ) == LookupView::Start)
}

/// No fetch of the page ends, or is given up.
pub open spec fn unfinished<R>(ops: Seq<CacheOp<R>>, key: PageKey) -> bool {
    forall|i: int|
        0 <= i < ops.len() ==> match #[trigger] ops[i] {
            CacheOp::Finish(k) => k != key,
            CacheOp::Wait(k, outcome) => k == key ==> !(outcome is Dropped),
            _ => true,
        }
}

/// All that happens to a fetch of the page is among `events`.
pub open spec fn fetches_among<R>(
    ops: Seq<CacheOp<R>>,
    key: PageKey,
    events: Seq<FetchEventView>,
) -> bool {
    forall|i: int|
        0 <= i < ops.len() ==> ((#[trigger] ops[i]) matches CacheOp::Fetch(k, event) ==> k == key
            ==> events.contains(event))
}

/// No fetch brings the page in.
pub open spec fn brings_nothing<R>(ops: Seq<CacheOp<R>>, key: PageKey) -> bool {
    forall|i: int|
        0 <= i < ops.len() ==> ((#[trigger] ops[i]) matches CacheOp::Fetch(k, event) ==> k == key
            ==> page_of_event(event) is None)
}

/// The page is in memory all the time.
pub open spec fn stays<R>(state: CacheView<R>, ops: Seq<CacheOp<R>>, key: PageKey) -> bool {
    forall|i: int|
        0 <= i <= ops.len() ==> has_page(ran(state, #[trigger] ops.take(i)).pages, key)
}

/// A fetch from an event on, to its end.
pub struct FetchRun {
    /// All that happens to it.
    pub events: Seq<FetchEventView>,
    /// Its outcome.
    pub result: Result<Seq<u8>, Error>,
    /// The length of the page that is to be written to disk because of it.
    pub populate: Option<nat>,
    /// How often it asks the provider.
    pub provider_calls: nat,
}

/// How many events can still follow.
pub open spec fn events_left(event: FetchEventView) -> nat {
    match event {
        FetchEventView::Start(_) => 2,
        FetchEventView::DiskRead(_) => 1,
        FetchEventView::Fetched(_) => 0,
    }
}

/// The fetch of page `n` from `event` on, where the disk cache holds `disk` and the provider
/// answers `reply`.
pub open spec fn fetch_run(
    n: u64,
    event: FetchEventView,
    disk: Option<Seq<u8>>,
    reply: Result<Seq<u8>, Error>,
) -> FetchRun
    decreases events_left(event),
{
    match fetch_next(n, event) {
        FetchStepView::ReadDisk(_) => {
            let rest = fetch_run(n, FetchEventView::DiskRead(disk), disk, reply);
            FetchRun { events: seq![event] + rest.events, ..rest }
        },
        FetchStepView::CallProvider => {
            let rest = fetch_run(n, FetchEventView::Fetched(reply), disk, reply);
            FetchRun {
                events: seq![event] + rest.events,
                provider_calls: rest.provider_calls + 1,
                ..rest
            }
        },
        FetchStepView::Done { result, populate } => FetchRun {
            events: seq![event],
            result,
            populate,
            provider_calls: 0,
        },
    }
}

/// What a request for a page is answered, where the fetch that it may have to wait for has the
/// outcome `outcome`. A request that has to start a fetch has no answer yet.
pub open spec fn request_answer(
    lookup: LookupView,
    outcome: Result<Seq<u8>, Error>,
) -> Option<Result<Seq<u8>, Error>> {
    match lookup {
        LookupView::Hit(data) => Some(Ok(data)),
        LookupView::Join => Some(outcome),
        LookupView::Start => None,
    }
}

/// No operation makes a page be in memory twice.
proof fn lemma_stays_distinct<R>(state: CacheView<R>, ops: Seq<CacheOp<R>>)
    requires
        distinct_pages(state.pages),
    ensures
        distinct_pages(ran(state, ops).pages),
    decreases ops.len(),
{
    if ops.len() > 0 {
        lemma_stays_distinct(state, ops.drop_last());
        let before = ran(state, ops.drop_last());
        match ops.last() {
            CacheOp::Request(key) => {
                law_insert_keeps_pages_distinct(before.pages, key, Seq::empty());
            },
            CacheOp::Fetch(key, event) => {
                if let Some(data) = page_of_event(event) {
                    law_insert_keeps_pages_distinct(before.pages, key, data);
                }
            },
            _ => {},
        }
    }
}

/// A fetch gives the page on disk, where there is one, and does not ask the provider then. Else it
/// asks the provider, once, and gives what the provider answers. Only a page that the provider
/// gave is written to disk, and a fetch that fails brings nothing into memory.
pub proof fn law_fetch_asks_provider_once(
    n: u64,
    key: Result<Seq<char>, Error>,
    disk: Option<Seq<u8>>,
    reply: Result<Seq<u8>, Error>,
)
    ensures
        ({
            let run = fetch_run(n, FetchEventView::Start(key), disk, reply);
            &&& run.provider_calls == (if key is Ok && disk is None { 1nat } else { 0nat })
            &&& run.result == match key {
                Err(error) => Err::<Seq<u8>, Error>(error),
                Ok(_) => match disk {
                    Some(data) => Ok(data),
                    None => reply,
                },
            }
            &&& run.populate == if key is Ok && disk is None && reply is Ok {
                Some(reply->Ok_0.len())
            } else {
                None
            }
            &&& forall|i: int|
                0 <= i < run.events.len() ==> (page_of_event(#[trigger] run.events[i]) matches Some(
                    data,
                ) ==> run.result == Ok::<Seq<u8>, Error>(data))
        }),
{
    reveal_with_fuel(fetch_run, 4);
}

/// From its start on, a page has one fetch under way, as long as that has not ended, and holds in
/// memory what this fetch brought in or nothing.
proof fn lemma_fetch_under_way<R>(
    state: CacheView<R>,
    key: PageKey,
    receiver: R,
    ops: Seq<CacheOp<R>>,
    outcome: Result<Seq<u8>, Error>,
    events: Seq<FetchEventView>,
)
    requires
        distinct_pages(state.pages),
        looked_up(state, key) == LookupView::Start,
        orderly(started(state, key, receiver), ops),
        unfinished(ops, key),
        fetches_among(ops, key, events),
        forall|i: int|
            0 <= i < events.len() ==> (page_of_event(#[trigger] events[i]) matches Some(data)
                ==> outcome == Ok::<Seq<u8>, Error>(data)),
    ensures
        ({
            let reached = ran(started(state, key, receiver), ops);
            &&& reached.pending.contains_key(key)
            &&& reached.pending[key] == receiver
            &&& page_data(reached.pages, key) matches Some(data) ==> outcome == Ok::<
                Seq<u8>,
                Error,
            >(data)
        }),
    decreases ops.len(),
{
    let first = started(state, key, receiver);
    if ops.len() > 0 {
        let init = ops.drop_last();
        assert(ops.take(ops.len() - 1) =~= init);
        assert forall|i: int| 0 <= i < init.len() implies #[trigger] init[i] == ops[i]
            && init.take(i) == ops.take(i) by {
            assert(init.take(i) =~= ops.take(i));
        }
        assert(orderly(first, init)) by {
            assert forall|i: int| 0 <= i < init.len() implies ((#[trigger] init[i]) matches
                CacheOp::Start(k, _) ==> looked_up(ran(first, init.take(i)), k)
                == LookupView::Start) by {
                assert(init[i] == ops[i]);
            }
        }
        lemma_fetch_under_way(state, key, receiver, init, outcome, events);
        lemma_stays_distinct(first, init);
        let before = ran(first, init);
        let op = ops[ops.len() - 1];
        match op {
            CacheOp::Request(k) => {
                if has_page(before.pages, key) {
                    law_page_keeps_its_data(before.pages, key, k, Seq::empty());
                } else {
                    law_only_inserted_page_appears(before.pages, key, k, Seq::empty());
                }
            },
            CacheOp::Fetch(k, event) => {
                if let Some(data) = page_of_event(event) {
                    if has_page(before.pages, key) {
                        law_page_keeps_its_data(before.pages, key, k, data);
                    } else if k != key {
                        law_only_inserted_page_appears(before.pages, key, k, data);
                    } else {
                        let i = choose|i: int| 0 <= i < events.len() && events[i] == event;
                        assert(page_of_event(events[i]) == Some(data));
                        if data.len() + 80 <= 67108864 {
                            law_inserted_page_is_found(before.pages, key, data);
                        } else {
                            law_oversized_page_empties_cache(before.pages, key, data);
                        }
                    }
                }
            },
            _ => {},
        }
    }
}

/// However many requests for a page come while its fetch is under way, none of them starts another
/// fetch, all of them listen on what the first one does, and all of them are answered the outcome
/// of that one fetch. This holds whatever else goes on, and whichever of the requests, the first
/// one included, are abandoned. When the fetch ends it is still under way, so that its outcome is
/// sent, and after that it is no longer under way.
pub proof fn law_requests_share_one_fetch<R>(
    state: CacheView<R>,
    key: PageKey,
    receiver: R,
    ops: Seq<CacheOp<R>>,
    path: Result<Seq<char>, Error>,
    disk: Option<Seq<u8>>,
    reply: Result<Seq<u8>, Error>,
)
    requires
        distinct_pages(state.pages),
        looked_up(state, key) == LookupView::Start,
        orderly(started(state, key, receiver), ops),
        unfinished(ops, key),
        fetches_among(
            ops,
            key,
            fetch_run(key.1, FetchEventView::Start(path), disk, reply).events,
        ),
    ensures
        ({
            let run = fetch_run(key.1, FetchEventView::Start(path), disk, reply);
            &&& run.provider_calls <= 1
            &&& forall|i: int|
                0 <= i <= ops.len() ==> {
                    let reached = ran(started(state, key, receiver), #[trigger] ops.take(i));
                    &&& reached.pending.contains_key(key)
                    &&& reached.pending[key] == receiver
                    &&& request_answer(looked_up(reached, key), run.result) == Some(run.result)
                    &&& !finished(reached, key).pending.contains_key(key)
                }
        }),
{
    let run = fetch_run(key.1, FetchEventView::Start(path), disk, reply);
    let first = started(state, key, receiver);
    law_fetch_asks_provider_once(key.1, path, disk, reply);
    assert forall|i: int| 0 <= i <= ops.len() implies ({
        let reached = ran(first, #[trigger] ops.take(i));
        &&& reached.pending.contains_key(key)
        &&& reached.pending[key] == receiver
        &&& request_answer(looked_up(reached, key), run.result) == Some(run.result)
    }) by {
        let part = ops.take(i);
        assert forall|j: int| 0 <= j < part.len() implies #[trigger] part[j] == ops[j]
            && part.take(j) == ops.take(j) by {
            assert(part.take(j) =~= ops.take(j));
        }
        assert(orderly(first, part)) by {
            assert forall|j: int| 0 <= j < part.len() implies ((#[trigger] part[j]) matches
                CacheOp::Start(k, _) ==> looked_up(ran(first, part.take(j)), k)
                == LookupView::Start) by {
                assert(part[j] == ops[j]);
            }
        }
        lemma_fetch_under_way(state, key, receiver, part, run.result, run.events);
    }
}

/// A page in memory is answered from there, with the same bytes and without a fetch, as long as it
/// stays in memory, whatever else goes on.
pub proof fn law_page_in_memory_stays_a_hit<R>(
    state: CacheView<R>,
    key: PageKey,
    data: Seq<u8>,
    ops: Seq<CacheOp<R>>,
)
    requires
        distinct_pages(state.pages),
        page_data(state.pages, key) == Some(data),
        stays(state, ops, key),
    ensures
        looked_up(ran(state, ops), key) == LookupView::Hit(data),
    decreases ops.len(),
{
    if ops.len() > 0 {
        let init = ops.drop_last();
        assert forall|i: int| 0 <= i <= init.len() implies has_page(
            ran(state, #[trigger] init.take(i)).pages,
            key,
        ) by {
            assert(init.take(i) =~= ops.take(i));
        }
        assert(ops.take(ops.len() as int) =~= ops);
        law_page_in_memory_stays_a_hit(state, key, data, init);
        lemma_stays_distinct(state, init);
        let before = ran(state, init);
        match ops.last() {
            CacheOp::Request(k) => {
                law_page_keeps_its_data(before.pages, key, k, Seq::empty());
            },
            CacheOp::Fetch(k, event) => {
                if let Some(brought) = page_of_event(event) {
                    law_page_keeps_its_data(before.pages, key, k, brought);
                }
            },
            _ => {},
        }
    }
}

/// Once a page was fetched, every request for it is answered the bytes that were fetched, without
/// another fetch, as long as it stays in memory. It gets there if it fits there at all.
pub proof fn law_fetched_page_is_hit<R>(
    state: CacheView<R>,
    key: PageKey,
    event: FetchEventView,
    data: Seq<u8>,
    ops: Seq<CacheOp<R>>,
)
    requires
        distinct_pages(state.pages),
        !has_page(state.pages, key),
        page_of_event(event) == Some(data),
    ensures
        data.len() + 80 <= 67108864 ==> looked_up(
            fetched(state, key, event),
            key,
        ) == LookupView::Hit(data),
        stays(fetched(state, key, event), ops, key) ==> looked_up(
            ran(fetched(state, key, event), ops),
            key,
        ) == LookupView::Hit(data),
{
    let after = fetched(state, key, event);
    law_insert_keeps_pages_distinct(state.pages, key, data);
    if data.len() + 80 <= 67108864 {
        law_inserted_page_is_found(state.pages, key, data);
    } else {
        law_oversized_page_empties_cache(state.pages, key, data);
    }
    if stays(after, ops, key) {
        assert(ops.take(0) =~= Seq::<CacheOp<R>>::empty());
        assert(has_page(ran(after, ops.take(0)).pages, key));
        law_page_in_memory_stays_a_hit(after, key, data, ops);
    }
}

/// A page that no fetch brings in does not get into memory.
proof fn lemma_stays_absent<R>(state: CacheView<R>, key: PageKey, ops: Seq<CacheOp<R>>)
    requires
        distinct_pages(state.pages),
        !has_page(state.pages, key),
        brings_nothing(ops, key),
    ensures
        !has_page(ran(state, ops).pages, key),
    decreases ops.len(),
{
    if ops.len() > 0 {
        let init = ops.drop_last();
        assert(forall|i: int| 0 <= i < init.len() ==> #[trigger] init[i] == ops[i]);
        lemma_stays_absent(state, key, init);
        lemma_stays_distinct(state, init);
        let before = ran(state, init);
        match ops[ops.len() - 1] {
            CacheOp::Request(k) => {
                law_only_inserted_page_appears(before.pages, key, k, Seq::empty());
            },
            CacheOp::Fetch(k, event) => {
                if let Some(data) = page_of_event(event) {
                    law_only_inserted_page_appears(before.pages, key, k, data);
                }
            },
            _ => {},
        }
    }
}

/// Failures are not kept. Where every fetch of a page failed and the last one has ended, the next
/// request for the page starts a fetch, whatever else went on in between.
pub proof fn law_failed_fetch_is_forgotten<R>(
    state: CacheView<R>,
    key: PageKey,
    ops: Seq<CacheOp<R>>,
)
    requires
        distinct_pages(state.pages),
        !has_page(state.pages, key),
        brings_nothing(ops, key),
    ensures
        looked_up(ran(state, ops.push(CacheOp::Finish(key))), key) == LookupView::Start,
{
    lemma_stays_absent(state, key, ops);
    assert(ops.push(CacheOp::Finish(key)).drop_last() =~= ops);
}

/// The size of a blob is asked of the provider once. The first request for it is answered what the
/// provider says, be it a size or an error. After a size, every later request is answered that
/// size without asking the provider, as long as the page that holds it is in memory or on disk.
/// After an error, which is not written to disk either, the next request starts a fetch.
pub proof fn law_size_is_asked_for_once<R>(
    state: CacheView<R>,
    hash: Seq<char>,
    path: Seq<char>,
    head: Result<u64, Error>,
    ops: Seq<CacheOp<R>>,
    reply: Result<Seq<u8>, Error>,
)
    requires
        distinct_pages(state.pages),
        !has_page(state.pages, (hash, 0)),
    ensures
        ({
            let start = FetchEventView::Start(Ok(path));
            let first = fetch_run(0, start, None, page_of_size(head));
            &&& first.provider_calls == 1
            &&& first.result == page_of_size(head)
            &&& size_of_page(first.result) == head
            &&& head matches Ok(size) ==> {
                let page = le_bytes(size as nat, 8);
                let after = fetched(state, (hash, 0), FetchEventView::Fetched(first.result));
                let again = fetch_run(0, start, Some(page), reply);
                &&& page.len() == 8
                &&& looked_up(after, (hash, 0)) == LookupView::Hit(page)
                &&& stays(after, ops, (hash, 0)) ==> looked_up(ran(after, ops), (hash, 0))
                    == LookupView::Hit(page)
                &&& again.provider_calls == 0
                &&& again.result == Ok::<Seq<u8>, Error>(page)
                &&& size_of_page(Ok(page)) == head
            }
            &&& head is Err ==> {
                &&& first.populate is None
                &&& brings_nothing(ops, (hash, 0)) ==> looked_up(
                    ran(state, ops.push(CacheOp::Finish((hash, 0)))),
                    (hash, 0),
                ) == LookupView::Start
            }
        }),
{
    let key = (hash, 0u64);
    law_fetch_asks_provider_once(0, Ok(path), None, page_of_size(head));
    match head {
        Ok(size) => {
            let page = le_bytes(size as nat, 8);
            law_size_round_trip(size);
            law_fetch_asks_provider_once(0, Ok(path), Some(page), reply);
            law_fetched_page_is_hit(state, key, FetchEventView::Fetched(Ok(page)), page, ops);
        },
        Err(_) => {
            if brings_nothing(ops, key) {
                law_failed_fetch_is_forgotten(state, key, ops);
            }
        },
    }
}

/// The lengths of the pages that wait to be written to disk after a history.
pub open spec fn outstanding<R>(ops: Seq<CacheOp<R>>) -> Seq<u64>
    decreases ops.len(),
{
    if ops.len() == 0 {
        Seq::empty()
    } else {
        let before = outstanding(ops.drop_last());
        match ops.last() {
            CacheOp::BeginWrite(len) => before.push(len),
            CacheOp::EndWrite(len) => before.remove(before.index_of(len)),
            _ => before,
        }
    }
}

/// Only a write that has begun, and has not ended, ends.
pub open spec fn writes_in_order<R>(ops: Seq<CacheOp<R>>) -> bool
    decreases ops.len(),
{
    ops.len() > 0 ==> {
        &&& writes_in_order(ops.drop_last())
        &&& ops.last() matches CacheOp::EndWrite(len) ==> outstanding(ops.drop_last()).contains(len)
    }
}

/// The sum of lengths.
pub open spec fn total_len(lens: Seq<u64>) -> nat
    decreases lens.len(),
{
    if lens.len() == 0 {
        0
    } else {
        total_len(lens.drop_last()) + lens.last() as nat
    }
}

/// A length taken out takes its share of the sum along.
proof fn lemma_total_len_remove(lens: Seq<u64>, i: int)
    requires
        0 <= i < lens.len(),
    ensures
        total_len(lens.remove(i)) + lens[i] == total_len(lens),
    decreases lens.len(),
{
    if i == lens.len() - 1 {
        assert(lens.remove(i) =~= lens.drop_last());
    } else {
        assert(lens.remove(i).drop_last() =~= lens.drop_last().remove(i));
        assert(lens.remove(i).last() == lens.last());
        lemma_total_len_remove(lens.drop_last(), i);
    }
}

/// Adding to, or taking from, a number that wrapped around gives the sum or difference, wrapped
/// around.
proof fn lemma_wrapped(n: nat, by: u64)
    ensures
        wrapped(n % 0x1_0000_0000_0000_0000 + by) == (n + by) % 0x1_0000_0000_0000_0000,
        n >= by ==> wrapped(n % 0x1_0000_0000_0000_0000 - by) == (n - by)
            % 0x1_0000_0000_0000_0000,
{
}

/// After any history, the number of pages that wait to be written to disk is the number of writes
/// that have begun and not ended, and the number of bytes is the sum of their lengths, as far as
/// 64 bits count. When all of them have ended, both are back at 0.
pub proof fn law_write_counts_are_of_outstanding<R>(state: CacheView<R>, ops: Seq<CacheOp<R>>)
    requires
        state.write_pages == 0,
        state.write_bytes == 0,
        writes_in_order(ops),
    ensures
        ran(state, ops).write_pages == outstanding(ops).len() % 0x1_0000_0000_0000_0000,
        ran(state, ops).write_bytes == total_len(outstanding(ops)) % 0x1_0000_0000_0000_0000,
        outstanding(ops).len() == 0 ==> ran(state, ops).write_pages == 0 && ran(
            state,
            ops,
        ).write_bytes == 0,
    decreases ops.len(),
{
    if ops.len() > 0 {
        let before = outstanding(ops.drop_last());
        law_write_counts_are_of_outstanding(state, ops.drop_last());
        match ops.last() {
            CacheOp::BeginWrite(len) => {
                assert(before.push(len).drop_last() =~= before);
                lemma_wrapped(before.len(), 1);
                lemma_wrapped(total_len(before), len);
            },
            CacheOp::EndWrite(len) => {
                let i = before.index_of(len);
                assert(before.contains(len));
                assert(0 <= i < before.len() && before[i] == len);
                lemma_total_len_remove(before, i);
                lemma_wrapped(before.len(), 1);
                lemma_wrapped(total_len(before), len);
            },
            _ => {},
        }
    }
}

/// Only a fetch that brings a page in makes pages leave memory or come there. All other operations
/// leave every page as it is, and no operation changes the size of a page.
pub proof fn law_only_fetches_change_pages<R>(state: CacheView<R>, op: CacheOp<R>, key: PageKey)
    requires
        distinct_pages(state.pages),
    ensures
        !(op is Fetch) ==> page_data(applied(state, op).pages, key) == page_data(state.pages, key),
        op matches CacheOp::Fetch(_, FetchEventView::Start(_)) ==> applied(state, op) == state,
        op matches CacheOp::Fetch(_, FetchEventView::DiskRead(None)) ==> applied(state, op)
            == state,
        op matches CacheOp::Fetch(_, FetchEventView::Fetched(Err(_))) ==> applied(state, op)
            == state,
        applied(state, op).pagesize == state.pagesize,
{
    if let CacheOp::Request(k) = op {
        law_lookup_keeps_pages(state.pages, k);
    }
}

/// The fetches under way are those that were started and neither ended nor were given up. Each
/// operation is about the page that it names, and leaves the fetches of all others alone.
pub proof fn law_fetch_is_under_way_until_it_ends<R>(
    state: CacheView<R>,
    op: CacheOp<R>,
    key: PageKey,
)
    ensures
        applied(state, op).pending.contains_key(key) == (match op {
            CacheOp::Start(k, _) => k == key || state.pending.contains_key(key),
            CacheOp::Finish(k) => k != key && state.pending.contains_key(key),
            CacheOp::Wait(k, WaitOutcome::Dropped) => k != key && state.pending.contains_key(key),
            _ => state.pending.contains_key(key),
        }),
        op matches CacheOp::Start(k, receiver) ==> k == key ==> applied(state, op).pending[key]
            == receiver,
        state.pending.contains_key(key) && applied(state, op).pending.contains_key(key) && !(
        op matches CacheOp::Start(k, _) && k == key) ==> applied(state, op).pending[key]
            == state.pending[key],
{
}

/// A page of any length that fits into memory gets there, whether it was read from disk or came
/// from the provider, and the next request for it is answered its bytes. A page that is there
/// already stays as it is.
pub proof fn law_fetched_bytes_get_into_memory<R>(
    state: CacheView<R>,
    key: PageKey,
    data: Seq<u8>,
    event: FetchEventView,
)
    requires
        distinct_pages(state.pages),
        data.len() + 80 <= 67108864,
        event == FetchEventView::DiskRead(Some(data)) || event == FetchEventView::Fetched(
            Ok::<Seq<u8>, Error>(data),
        ),
    ensures
        looked_up(applied(state, CacheOp::Fetch(key, event)), key) == LookupView::Hit(
            match page_data(state.pages, key) {
                Some(earlier) => earlier,
                None => data,
            },
        ),
        applied(state, CacheOp::Fetch(key, event)).pending == state.pending,
{
    law_inserted_page_is_found(state.pages, key, data);
}

} // verus!
