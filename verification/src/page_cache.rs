//! The in-memory page cache: least recently used pages leave first.

use crate::buffer::{bytes_clone, bytes_len, bytes_view};
use hashlink::LinkedHashMap;
use hyper::body::Bytes;
use vstd::prelude::*;

verus! {

/// Constant cost associated with every entry in the page cache.
pub const PAGE_CACHE_ENTRY_COST: u64 = 80;

/// Maximum cost of the pages held in memory: 64 MiB.
pub const PAGE_CACHE_CAPACITY: u64 = 67108864;

/// What identifies a page: the hash of its blob, and its index in the blob.
pub type PageKey = (Seq<char>, u64);

/// A page: its key and its bytes.
pub type Page = (PageKey, Seq<u8>);

/// `hashlink::LinkedHashMap`, a hash map that keeps its entries in an order of the caller's
/// choosing, here from a `(hash, index)` pair to the page's bytes.
#[verifier::external_body]
pub struct PageMap {
    mapping: LinkedHashMap<(String, u64), Bytes>,
}

/// The pages that a map holds, from the front of its order to the back.
pub uninterp spec fn pages_of(map: PageMap) -> Seq<Page>;

/// Whether some page of `pages` has the key `key`.
pub open spec fn has_page(pages: Seq<Page>, key: PageKey) -> bool {
    exists|i: int| 0 <= i < pages.len() && #[trigger] pages[i].0 == key
}

/// Where the page with the key `key` stands in `pages`.
pub open spec fn page_index(pages: Seq<Page>, key: PageKey) -> int {
    choose|i: int| 0 <= i < pages.len() && #[trigger] pages[i].0 == key
}

/// The bytes of the page with the key `key`, where there is one.
pub open spec fn page_data(pages: Seq<Page>, key: PageKey) -> Option<Seq<u8>> {
    if has_page(pages, key) {
        Some(pages[page_index(pages, key)].1)
    } else {
        None
    }
}

/// `pages` with the page of the key `key`, where there is one, moved to the back.
pub open spec fn touched(pages: Seq<Page>, key: PageKey) -> Seq<Page> {
    if has_page(pages, key) {
        let i = page_index(pages, key);
        pages.remove(i).push(pages[i])
    } else {
        pages
    }
}

/// No key occurs twice.
pub open spec fn distinct_pages(pages: Seq<Page>) -> bool {
    forall|i: int, j: int|
        0 <= i < j < pages.len() ==> (#[trigger] pages[i]).0 != (#[trigger] pages[j]).0
}

/// What a page costs: its size, plus the constant cost of an entry.
pub open spec fn page_cost(page: Page) -> nat {
    page.1.len() + PAGE_CACHE_ENTRY_COST as nat
}

/// What `pages` cost together.
pub open spec fn total_cost(pages: Seq<Page>) -> nat
    decreases pages.len(),
{
    if pages.len() == 0 {
        0
    } else {
        page_cost(pages[0]) + total_cost(pages.drop_first())
    }
}

/// `pages` without the fewest pages at the front that have to leave for the rest to cost no more
/// than `capacity`.
pub open spec fn evicted(pages: Seq<Page>, capacity: nat) -> Seq<Page>
    decreases pages.len(),
{
    if pages.len() == 0 || total_cost(pages) <= capacity {
        pages
    } else {
        evicted(pages.drop_first(), capacity)
    }
}

/// `pages` after the page `(key, data)` was offered to it. A page that is there already stays as
/// it is and moves to the back; a new one goes to the back, and pages leave from the front until
/// the rest fits.
pub open spec fn inserted(pages: Seq<Page>, key: PageKey, data: Seq<u8>) -> Seq<Page> {
    if has_page(pages, key) {
        touched(pages, key)
    } else {
        evicted(pages.push((key, data)), PAGE_CACHE_CAPACITY as nat)
    }
}

/// Whether the cost of these bytes, on top of a full cache, can be counted. Only a buffer within
/// 64 MiB of the whole 64-bit address space is too large.
pub open spec fn countable(data: Seq<u8>) -> bool {
    data.len() + PAGE_CACHE_ENTRY_COST + PAGE_CACHE_CAPACITY <= u64::MAX
}

impl PageMap {
    /// `LinkedHashMap::new`: a map without entries.
    #[verifier::external_body]
    fn new() -> (map: PageMap)
        ensures
            pages_of(map) == Seq::<Page>::empty(),
    {
        PageMap { mapping: LinkedHashMap::new() }
    }

    /// `LinkedHashMap::len`: the number of entries.
    #[verifier::external_body]
    fn len(&self) -> (len: usize)
        ensures
            len == pages_of(*self).len(),
    {
        self.mapping.len()
    }

    /// `LinkedHashMap::get`: the value of a key, where there is one.
    #[verifier::external_body]
    fn get(&self, key: &(String, u64)) -> (found: Option<&Bytes>)
        ensures
            found is Some <==> has_page(pages_of(*self), (key.0@, key.1)),
            found matches Some(bytes) ==> page_data(pages_of(*self), (key.0@, key.1)) == Some(
                bytes_view(*bytes),
            ),
    {
        self.mapping.get(key)
    }

    /// `LinkedHashMap::to_back`: moves the entry of a key, where there is one, to the back of the
    /// order, and tells whether there was one.
    #[verifier::external_body]
    fn to_back(&mut self, key: &(String, u64)) -> (found: bool)
        ensures
            found <==> has_page(pages_of(*old(self)), (key.0@, key.1)),
            pages_of(*final(self)) == touched(pages_of(*old(self)), (key.0@, key.1)),
    {
        self.mapping.to_back(key).is_some()
    }

    /// `LinkedHashMap::insert` of a key that is not in the map: the new entry goes to the back.
    #[verifier::external_body]
    fn insert(&mut self, key: (String, u64), bytes: Bytes)
        requires
            !has_page(pages_of(*old(self)), (key.0@, key.1)),
        ensures
            pages_of(*final(self)) == pages_of(*old(self)).push(
                ((key.0@, key.1), bytes_view(bytes)),
            ),
    {
        self.mapping.insert(key, bytes);
    }

    /// `LinkedHashMap::pop_front`: takes the entry at the front, where there is one, and gives its
    /// value.
    #[verifier::external_body]
    fn pop_front(&mut self) -> (front: Option<Bytes>)
        ensures
            front is Some <==> pages_of(*old(self)).len() > 0,
            front matches Some(bytes) ==> {
                &&& bytes_view(bytes) == pages_of(*old(self))[0].1
                &&& pages_of(*final(self)) == pages_of(*old(self)).drop_first()
            },
            front is None ==> pages_of(*final(self)) == pages_of(*old(self)),
    {
        self.mapping.pop_front().map(|entry| entry.1)
    }
}

/// An in-memory, LRU based page cache.
pub struct PageCache {
    /// A mapping from `(hash, offset)` pairs to shared references to data.
    mapping: PageMap,
    /// The total cached pages' size, plus a fixed [`PAGE_CACHE_ENTRY_COST`] for each.
    total_cost: u64,
    /// The maximum cost size of the page cache in bytes.
    total_capacity: u64,
}

impl View for PageCache {
    type V = Seq<Page>;

    /// The cached pages, from the least to the most recently used.
    closed spec fn view(&self) -> Seq<Page> {
        pages_of(self.mapping)
    }
}

impl PageCache {
    /// No page is cached twice, and the cost is what the pages cost and within the capacity.
    pub closed spec fn wf(&self) -> bool {
        &&& distinct_pages(self@)
        &&& self.total_cost == total_cost(self@)
        &&& self.total_cost <= self.total_capacity
        &&& self.total_capacity == PAGE_CACHE_CAPACITY
    }

    /// The cost that is counted for the cached pages.
    pub closed spec fn cost(&self) -> nat {
        self.total_cost as nat
    }

    /// What the cached pages may cost together.
    pub closed spec fn capacity(&self) -> nat {
        self.total_capacity as nat
    }

    /// The number of cached pages.
    pub fn len(&self) -> (len: usize)
        ensures
            len == self@.len(),
    {
        self.mapping.len()
    }

    /// Insert an entry into the page cache, with LRU eviction.
    pub fn insert(&mut self, hash: String, n: u64, bytes: Bytes)
        requires
            old(self).wf(),
            countable(bytes_view(bytes)),
        ensures
            final(self).wf(),
            final(self)@ == inserted(old(self)@, (hash@, n), bytes_view(bytes)),
            final(self)@.fold_left(0int, |sum: int, page: Page| sum + page.1.len() + 80)
                <= 67108864,
    {
        let key = (hash, n);
        if self.mapping.to_back(&key) {
            proof {
                lemma_touched(old(self)@, (hash@, n));
            }
        } else {
            let size: usize = bytes_len(&bytes);
            self.mapping.insert(key, bytes_clone(&bytes));
            proof {
                lemma_push_cost(old(self)@, ((hash@, n), bytes_view(bytes)));
            }
            self.total_cost = self.total_cost + (size as u64 + PAGE_CACHE_ENTRY_COST);
            let ghost pushed = self@;
            while self.total_cost > self.total_capacity
                invariant
                    distinct_pages(self@),
                    self.total_cost == total_cost(self@),
                    self.total_capacity == PAGE_CACHE_CAPACITY,
                    evicted(pushed, PAGE_CACHE_CAPACITY as nat) == evicted(
                        self@,
                        PAGE_CACHE_CAPACITY as nat,
                    ),
                decreases self@.len(),
            {
                // A positive cost means that there is a page left.
                if let Some(front) = self.mapping.pop_front() {
                    self.total_cost =
                        self.total_cost - (bytes_len(&front) as u64 + PAGE_CACHE_ENTRY_COST);
                }
            }
        }
        proof {
            lemma_cost_is_sum(self@, |sum: int, page: Page| sum + page.1.len() + 80);
        }
    }

    /// Get an entry from the page cache, with LRU eviction.
    pub fn get(&mut self, hash: String, n: u64) -> (found: Option<Bytes>)
        requires
            old(self).wf(),
        ensures
            final(self).wf(),
            final(self)@ == touched(old(self)@, (hash@, n)),
            found is Some <==> has_page(old(self)@, (hash@, n)),
            found matches Some(bytes) ==> page_data(old(self)@, (hash@, n)) == Some(
                bytes_view(bytes),
            ),
    {
        proof {
            lemma_touched(old(self)@, (hash@, n));
        }
        let key = (hash, n);
        if self.mapping.to_back(&key) {
            match self.mapping.get(&key) {
                Some(bytes) => Some(bytes_clone(bytes)),
                None => None,
            }
        } else {
            None
        }
    }

    /// Get an entry from the page cache, without LRU eviction.
    pub fn peek(&self, hash: String, n: u64) -> (found: Option<Bytes>)
        requires
            self.wf(),
        ensures
            found is Some <==> has_page(self@, (hash@, n)),
            found matches Some(bytes) ==> page_data(self@, (hash@, n)) == Some(bytes_view(bytes)),
    {
        match self.mapping.get(&(hash, n)) {
            Some(bytes) => Some(bytes_clone(bytes)),
            None => None,
        }
    }
}

impl Default for PageCache {
    fn default() -> (cache: PageCache)
        ensures
            cache.wf(),
            cache@ == Seq::<Page>::empty(),
    {
        PageCache { mapping: PageMap::new(), total_cost: 0, total_capacity: PAGE_CACHE_CAPACITY }
    }
}

/// A page pushed to the back adds its cost.
proof fn lemma_push_cost(pages: Seq<Page>, page: Page)
    ensures
        total_cost(pages.push(page)) == total_cost(pages) + page_cost(page),
    decreases pages.len(),
{
    if pages.len() == 0 {
        assert(pages.push(page).drop_first() =~= pages);
    } else {
        assert(pages.push(page).drop_first() =~= pages.drop_first().push(page));
        lemma_push_cost(pages.drop_first(), page);
    }
}

/// A page taken out takes its cost along.
proof fn lemma_remove_cost(pages: Seq<Page>, i: int)
    requires
        0 <= i < pages.len(),
    ensures
        total_cost(pages.remove(i)) + page_cost(pages[i]) == total_cost(pages),
    decreases pages.len(),
{
    if i == 0 {
        assert(pages.remove(0) =~= pages.drop_first());
    } else {
        assert(pages.remove(i).drop_first() =~= pages.drop_first().remove(i - 1));
        lemma_remove_cost(pages.drop_first(), i - 1);
    }
}

/// The page of a key is the only one that has it.
proof fn lemma_page_data(pages: Seq<Page>, i: int)
    requires
        distinct_pages(pages),
        0 <= i < pages.len(),
    ensures
        has_page(pages, pages[i].0),
        page_index(pages, pages[i].0) == i,
        page_data(pages, pages[i].0) == Some(pages[i].1),
{
    let j = page_index(pages, pages[i].0);
    assert(pages[j].0 == pages[i].0);
    if i < j {
        assert(pages[i].0 != pages[j].0);
    } else if j < i {
        assert(pages[j].0 != pages[i].0);
    }
}

/// Moving a page to the back changes nothing but the order.
proof fn lemma_touched(pages: Seq<Page>, key: PageKey)
    requires
        distinct_pages(pages),
    ensures
        distinct_pages(touched(pages, key)),
        total_cost(touched(pages, key)) == total_cost(pages),
        forall|k: PageKey| #[trigger] page_data(touched(pages, key), k) == page_data(pages, k),
{
    if has_page(pages, key) {
        let i = page_index(pages, key);
        let after = touched(pages, key);
        lemma_remove_cost(pages, i);
        lemma_push_cost(pages.remove(i), pages[i]);
        assert(forall|j: int| 0 <= j < i ==> after[j] == pages[j]);
        assert(forall|j: int| i <= j < pages.len() - 1 ==> after[j] == pages[j + 1]);
        assert(after[pages.len() - 1] == pages[i]);
        assert(distinct_pages(after));
        assert forall|k: PageKey| #[trigger] page_data(after, k) == page_data(pages, k) by {
            if has_page(pages, k) {
                let j = page_index(pages, k);
                let at = if j < i { j } else if j == i { pages.len() - 1 } else { j - 1 };
                assert(after[at] == pages[j]);
                lemma_page_data(after, at);
            } else if has_page(after, k) {
                let j = page_index(after, k);
                let at = if j < i { j } else if j == pages.len() - 1 { i } else { j + 1 };
                assert(pages[at].0 == k);
            }
        }
    }
}

/// In every state, the cost that a cache counts is what its pages cost together, it is within the
/// capacity, which is always the same, and no page is held twice.
pub proof fn law_cache_within_capacity(cache: PageCache)
    requires
        cache.wf(),
    ensures
        cache.cost() == total_cost(cache@),
        cache.cost() <= cache.capacity(),
        cache.capacity() == PAGE_CACHE_CAPACITY,
        total_cost(cache@) <= PAGE_CACHE_CAPACITY,
        distinct_pages(cache@),
        cache@.fold_left(0int, |sum: int, page: Page| sum + page.1.len() + 80) <= 67108864,
{
    lemma_cost_is_sum(cache@, |sum: int, page: Page| sum + page.1.len() + 80);
}

/// What pages cost together is the sum of their lengths, and 80 more for each.
proof fn lemma_cost_is_sum(pages: Seq<Page>, add_page: spec_fn(int, Page) -> int)
    requires
        forall|sum: int, page: Page| #[trigger]
            add_page(sum, page) == sum + page.1.len() + 80,
    ensures
        pages.fold_left(0int, add_page) == total_cost(pages),
    decreases pages.len(),
{
    reveal(Seq::fold_left);
    if pages.len() > 0 {
        lemma_cost_is_sum(pages.drop_last(), add_page);
        lemma_push_cost(pages.drop_last(), pages.last());
        assert(pages.drop_last().push(pages.last()) =~= pages);
    }
}

/// A new page goes to the back, and of the pages from the front on the fewest leave for which the
/// lengths of the rest, and 80 for each of them, add up to at most 64 MiB.
pub proof fn law_insertion_evicts_as_little_as_fits(
    pages: Seq<Page>,
    key: PageKey,
    data: Seq<u8>,
)
    requires
        forall|i: int| 0 <= i < pages.len() ==> (#[trigger] pages[i]).0 != key,
    ensures
        exists|k: int|
            {
                &&& 0 <= k <= pages.len() + 1
                &&& inserted(pages, key, data) == #[trigger] pages.push((key, data)).skip(k)
                &&& pages.push((key, data)).skip(k).fold_left(
                    0int,
                    |sum: int, page: Page| sum + page.1.len() + 80,
                ) <= 67108864
                &&& forall|j: int|
                    0 <= j < k ==> (#[trigger] pages.push((key, data)).skip(j)).fold_left(
                        0int,
                        |sum: int, page: Page| sum + page.1.len() + 80,
                    ) > 67108864
            },
{
    let add_page = |sum: int, page: Page| sum + page.1.len() + 80;
    let pushed = pages.push((key, data));
    let capacity = PAGE_CACHE_CAPACITY as nat;
    law_least_recently_used_leave_first(pushed, capacity);
    let k = choose|k: int|
        {
            &&& 0 <= k <= pushed.len()
            &&& evicted(pushed, capacity) == #[trigger] pushed.skip(k)
            &&& total_cost(pushed.skip(k)) <= capacity
            &&& forall|j: int| 0 <= j < k ==> total_cost(#[trigger] pushed.skip(j)) > capacity
        };
    lemma_cost_is_sum(pushed.skip(k), add_page);
    assert forall|j: int| 0 <= j < k implies (#[trigger] pushed.skip(j)).fold_left(0int, add_page)
        > 67108864 by {
        lemma_cost_is_sum(pushed.skip(j), add_page);
    }
    assert(inserted(pages, key, data) == pushed.skip(k));
}

/// A page that is there is found with its bytes. A lookup or another insertion moves it to the
/// back, behind all others, whose order stays; the bytes that are inserted again are ignored.
pub proof fn law_page_moves_to_back(pages: Seq<Page>, i: int, data: Seq<u8>)
    requires
        distinct_pages(pages),
        0 <= i < pages.len(),
    ensures
        has_page(pages, pages[i].0),
        page_data(pages, pages[i].0) == Some(pages[i].1),
        touched(pages, pages[i].0) == pages.take(i) + pages.skip(i + 1) + seq![pages[i]],
        inserted(pages, pages[i].0, data) == pages.take(i) + pages.skip(i + 1) + seq![pages[i]],
{
    lemma_page_data(pages, i);
    assert(touched(pages, pages[i].0) =~= pages.take(i) + pages.skip(i + 1) + seq![pages[i]]);
}

/// A page that is not there is not found, and looking for it changes nothing.
pub proof fn law_absent_page_is_not_found(pages: Seq<Page>, key: PageKey)
    requires
        forall|i: int| 0 <= i < pages.len() ==> (#[trigger] pages[i]).0 != key,
    ensures
        !has_page(pages, key),
        page_data(pages, key) is None,
        touched(pages, key) == pages,
{
}

/// Pages leave in order, the least recently used first, and no page leaves that could have
/// stayed: what is left is the longest run of pages up to the back that fits.
pub proof fn law_least_recently_used_leave_first(pages: Seq<Page>, capacity: nat)
    ensures
        exists|k: int|
            {
                &&& 0 <= k <= pages.len()
                &&& evicted(pages, capacity) == #[trigger] pages.skip(k)
                &&& total_cost(pages.skip(k)) <= capacity
                &&& forall|j: int| 0 <= j < k ==> total_cost(#[trigger] pages.skip(j)) > capacity
            },
    decreases pages.len(),
{
    assert(pages.skip(0) =~= pages);
    if pages.len() != 0 && total_cost(pages) > capacity {
        let rest = pages.drop_first();
        law_least_recently_used_leave_first(rest, capacity);
        let k = choose|k: int|
            {
                &&& 0 <= k <= rest.len()
                &&& evicted(rest, capacity) == #[trigger] rest.skip(k)
                &&& total_cost(rest.skip(k)) <= capacity
                &&& forall|j: int| 0 <= j < k ==> total_cost(#[trigger] rest.skip(j)) > capacity
            };
        assert(pages.skip(k + 1) =~= rest.skip(k));
        assert forall|j: int| 0 <= j < k + 1 implies total_cost(#[trigger] pages.skip(j))
            > capacity by {
            if j > 0 {
                assert(pages.skip(j) =~= rest.skip(j - 1));
            }
        }
    }
}

/// Evicting down to a capacity that the last page fits keeps that page at the back.
proof fn lemma_evicted_keeps_last(pages: Seq<Page>, capacity: nat)
    requires
        pages.len() > 0,
    ensures
        page_cost(pages.last()) <= capacity ==> {
            &&& evicted(pages, capacity).len() > 0
            &&& evicted(pages, capacity).last() == pages.last()
        },
        page_cost(pages.last()) > capacity ==> evicted(pages, capacity).len() == 0,
    decreases pages.len(),
{
    assert(pages.drop_last().push(pages.last()) =~= pages);
    lemma_push_cost(pages.drop_last(), pages.last());
    if total_cost(pages) > capacity {
        if pages.len() == 1 {
            assert(pages.drop_last().len() == 0);
            assert(pages.drop_first().len() == 0);
        } else {
            lemma_evicted_keeps_last(pages.drop_first(), capacity);
        }
    }
}

/// Pages that leave from the front leave no trace on the others.
proof fn lemma_evicted_distinct(pages: Seq<Page>, capacity: nat)
    requires
        distinct_pages(pages),
    ensures
        distinct_pages(evicted(pages, capacity)),
        total_cost(evicted(pages, capacity)) <= capacity,
        forall|i: int|
            0 <= i < evicted(pages, capacity).len() ==> exists|j: int|
                0 <= j < pages.len() && #[trigger] pages[j] == #[trigger] evicted(
                    pages,
                    capacity,
                )[i],
    decreases pages.len(),
{
    if pages.len() != 0 && total_cost(pages) > capacity {
        let rest = pages.drop_first();
        lemma_evicted_distinct(rest, capacity);
        assert forall|i: int| 0 <= i < evicted(pages, capacity).len() implies exists|j: int|
            0 <= j < pages.len() && #[trigger] pages[j] == #[trigger] evicted(
                pages,
                capacity,
            )[i] by {
            let j = choose|j: int|
                0 <= j < rest.len() && #[trigger] rest[j] == evicted(rest, capacity)[i];
            assert(pages[j + 1] == rest[j]);
        }
    }
}

/// A page that was inserted, and that fits the cache at all, is found by the next lookup, with
/// the bytes that it came in with, or those of the page that was there before it.
pub proof fn law_inserted_page_is_found(pages: Seq<Page>, key: PageKey, data: Seq<u8>)
    requires
        distinct_pages(pages),
        data.len() + 80 <= 67108864,
    ensures
        page_data(inserted(pages, key, data), key) == match page_data(pages, key) {
            Some(earlier) => Some(earlier),
            None => Some(data),
        },
{
    if has_page(pages, key) {
        lemma_touched(pages, key);
    } else {
        let pushed = pages.push((key, data));
        let after = inserted(pages, key, data);
        lemma_evicted_keeps_last(pushed, PAGE_CACHE_CAPACITY as nat);
        lemma_evicted_distinct(pushed, PAGE_CACHE_CAPACITY as nat);
        lemma_page_data(after, after.len() - 1);
    }
}

/// A new page that alone costs more than the capacity empties the cache and is not kept.
pub proof fn law_oversized_page_empties_cache(pages: Seq<Page>, key: PageKey, data: Seq<u8>)
    requires
        !has_page(pages, key),
        data.len() + 80 > 67108864,
    ensures
        inserted(pages, key, data) == Seq::<Page>::empty(),
{
    lemma_evicted_keeps_last(pages.push((key, data)), PAGE_CACHE_CAPACITY as nat);
}

/// A lookup changes the order of the pages and nothing else: which pages there are, what they
/// hold and what they cost stay as they were.
pub proof fn law_lookup_keeps_pages(pages: Seq<Page>, key: PageKey)
    requires
        distinct_pages(pages),
    ensures
        touched(pages, key).len() == pages.len(),
        total_cost(touched(pages, key)) == total_cost(pages),
        forall|k: PageKey| #[trigger] page_data(touched(pages, key), k) == page_data(pages, k),
        has_page(pages, key) ==> touched(pages, key).last().0 == key,
{
    lemma_touched(pages, key);
}

/// Inserting a page again neither grows the cache nor changes any page in it.
pub proof fn law_duplicate_insert_keeps_pages(
    pages: Seq<Page>,
    key: PageKey,
    first: Seq<u8>,
    second: Seq<u8>,
)
    requires
        distinct_pages(pages),
        first.len() + 80 <= 67108864,
    ensures
        ({
            let once = inserted(pages, key, first);
            let twice = inserted(once, key, second);
            &&& twice.len() == once.len()
            &&& forall|k: PageKey| #[trigger] page_data(twice, k) == page_data(once, k)
        }),
{
    law_inserted_page_is_found(pages, key, first);
    if has_page(pages, key) {
        lemma_touched(pages, key);
    } else {
        lemma_evicted_distinct(pages.push((key, first)), PAGE_CACHE_CAPACITY as nat);
    }
    lemma_touched(inserted(pages, key, first), key);
}

/// Neither a lookup nor an insertion makes a page occur twice.
pub proof fn law_insert_keeps_pages_distinct(pages: Seq<Page>, key: PageKey, data: Seq<u8>)
    requires
        distinct_pages(pages),
    ensures
        distinct_pages(touched(pages, key)),
        distinct_pages(inserted(pages, key, data)),
{
    lemma_touched(pages, key);
    if !has_page(pages, key) {
        lemma_evicted_distinct(pages.push((key, data)), PAGE_CACHE_CAPACITY as nat);
    }
}

/// As long as a page stays, it holds what it held, whatever other pages are looked up or inserted:
/// an insertion may drive it out, but changes no page that is left.
pub proof fn law_page_keeps_its_data(
    pages: Seq<Page>,
    key: PageKey,
    other: PageKey,
    data: Seq<u8>,
)
    requires
        distinct_pages(pages),
        has_page(pages, key),
    ensures
        page_data(touched(pages, other), key) == page_data(pages, key),
        has_page(inserted(pages, other, data), key) ==> page_data(
            inserted(pages, other, data),
            key,
        ) == page_data(pages, key),
{
    lemma_touched(pages, other);
    let after = inserted(pages, other, data);
    if !has_page(pages, other) && has_page(after, key) {
        let pushed = pages.push((other, data));
        lemma_evicted_distinct(pushed, PAGE_CACHE_CAPACITY as nat);
        let i = page_index(after, key);
        let j = choose|j: int| 0 <= j < pushed.len() && #[trigger] pushed[j] == after[i];
        assert(key != other);
        assert(pages[j] == after[i]);
        lemma_page_data(pages, j);
    }
}

/// No page appears but the one that is inserted.
pub proof fn law_only_inserted_page_appears(
    pages: Seq<Page>,
    key: PageKey,
    other: PageKey,
    data: Seq<u8>,
)
    requires
        distinct_pages(pages),
        !has_page(pages, key),
    ensures
        !has_page(touched(pages, other), key),
        other != key ==> !has_page(inserted(pages, other, data), key),
{
    lemma_touched(pages, other);
    assert(page_data(touched(pages, other), key) == page_data(pages, key));
    let after = inserted(pages, other, data);
    if other != key && !has_page(pages, other) && has_page(after, key) {
        let pushed = pages.push((other, data));
        lemma_evicted_distinct(pushed, PAGE_CACHE_CAPACITY as nat);
        let i = page_index(after, key);
        let j = choose|j: int| 0 <= j < pushed.len() && #[trigger] pushed[j] == after[i];
        assert(pages[j].0 == key);
    }
}

/// Every page holds what `origin` has for its key.
pub open spec fn faithful(pages: Seq<Page>, origin: spec_fn(PageKey) -> Option<Seq<u8>>) -> bool {
    forall|i: int| 0 <= i < pages.len() ==> Some((#[trigger] pages[i]).1) == origin(pages[i].0)
}

/// A cache into which only true pages are inserted holds only true pages, whatever is looked up
/// and whatever is evicted in between.
pub proof fn law_cache_stays_faithful(
    pages: Seq<Page>,
    key: PageKey,
    data: Seq<u8>,
    origin: spec_fn(PageKey) -> Option<Seq<u8>>,
)
    requires
        distinct_pages(pages),
        faithful(pages, origin),
    ensures
        faithful(touched(pages, key), origin),
        origin(key) == Some(data) ==> faithful(inserted(pages, key, data), origin),
        page_data(pages, key) is Some ==> page_data(pages, key) == origin(key),
{
    let after = touched(pages, key);
    if has_page(pages, key) {
        let i = page_index(pages, key);
        assert forall|j: int| 0 <= j < after.len() implies Some((#[trigger] after[j]).1) == origin(
            after[j].0,
        ) by {
            let at = if j < i { j } else if j == pages.len() - 1 { i } else { j + 1 };
            assert(after[j] == pages[at]);
        }
    } else if origin(key) == Some(data) {
        let pushed = pages.push((key, data));
        let kept = evicted(pushed, PAGE_CACHE_CAPACITY as nat);
        lemma_evicted_distinct(pushed, PAGE_CACHE_CAPACITY as nat);
        assert(faithful(pushed, origin));
        assert forall|j: int| 0 <= j < kept.len() implies Some((#[trigger] kept[j]).1) == origin(
            kept[j].0,
        ) by {
            let at = choose|at: int| 0 <= at < pushed.len() && #[trigger] pushed[at] == kept[j];
            assert(Some(pushed[at].1) == origin(pushed[at].0));
        }
    }
}

} // verus!
