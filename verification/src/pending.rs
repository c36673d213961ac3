//! Requests for pages that are under way.

use crate::page_cache::PageKey;
use vstd::prelude::*;

verus! {

/// The requests under way: for each page that is being fetched, what its waiters listen on.
pub struct PendingRequests<R> {
    entries: Vec<((String, u64), R)>,
}

/// Where the key `key` stands among `entries`.
spec fn position<R>(entries: Seq<((String, u64), R)>, key: PageKey) -> int {
    choose|i: int| 0 <= i < entries.len() && entry_key(#[trigger] entries[i]) == key
}

/// The key of an entry.
spec fn entry_key<R>(entry: ((String, u64), R)) -> PageKey {
    (entry.0.0@, entry.0.1)
}

/// Whether some entry has the key `key`.
spec fn has_key<R>(entries: Seq<((String, u64), R)>, key: PageKey) -> bool {
    exists|i: int| 0 <= i < entries.len() && entry_key(#[trigger] entries[i]) == key
}

/// No key occurs twice.
spec fn distinct_keys<R>(entries: Seq<((String, u64), R)>) -> bool {
    forall|i: int, j: int|
        0 <= i < j < entries.len() ==> entry_key(#[trigger] entries[i]) != entry_key(
            #[trigger] entries[j],
        )
}

/// What the entries hold.
spec fn entry_map<R>(entries: Seq<((String, u64), R)>) -> Map<PageKey, R> {
    Map::new(|key: PageKey| has_key(entries, key), |key: PageKey| entries[position(entries, key)].1)
}

impl<R> View for PendingRequests<R> {
    type V = Map<PageKey, R>;

    closed spec fn view(&self) -> Map<PageKey, R> {
        entry_map(self.entries@)
    }
}

impl<R> PendingRequests<R> {
    /// No page is being fetched twice.
    pub closed spec fn wf(&self) -> bool {
        distinct_keys(self.entries@)
    }

    /// No requests.
    pub fn new() -> (requests: PendingRequests<R>)
        ensures
            requests.wf(),
            requests@ == Map::<PageKey, R>::empty(),
    {
        let requests = PendingRequests { entries: Vec::new() };
        assert(requests@ =~= Map::<PageKey, R>::empty());
        requests
    }

    /// The number of requests.
    pub fn len(&self) -> (len: usize)
        requires
            self.wf(),
        ensures
            self@.dom().finite(),
            len == self@.dom().len(),
    {
        proof {
            lemma_key_count(self.entries@);
        }
        self.entries.len()
    }

    /// The index of a request.
    fn find(&self, hash: &str, n: u64) -> (found: Option<usize>)
        requires
            self.wf(),
        ensures
            match found {
                Some(i) => {
                    &&& i < self.entries@.len()
                    &&& entry_key(self.entries@[i as int]) == (hash@, n)
                    &&& self@.contains_key((hash@, n))
                    &&& self@[(hash@, n)] == self.entries@[i as int].1
                },
                None => !self@.contains_key((hash@, n)),
            },
    {
        let wanted: String = hash.to_owned();
        let mut i: usize = 0;
        while i < self.entries.len()
            invariant
                i <= self.entries@.len(),
                self.wf(),
                wanted@ == hash@,
                forall|j: int|
                    0 <= j < i ==> entry_key(#[trigger] self.entries@[j]) != (hash@, n),
            decreases self.entries@.len() - i,
        {
            if self.entries[i].0.1 == n && self.entries[i].0.0 == wanted {
                proof {
                    lemma_entry(self.entries@, i as int);
                }
                return Some(i);
            }
            i = i + 1;
        }
        None
    }

    /// What the waiters of a page listen on, where it is being fetched.
    pub fn get(&self, hash: &str, n: u64) -> (found: Option<&R>)
        requires
            self.wf(),
        ensures
            found is Some <==> self@.contains_key((hash@, n)),
            found matches Some(receiver) ==> *receiver == self@[(hash@, n)],
    {
        match self.find(hash, n) {
            Some(i) => Some(&self.entries[i].1),
            None => None,
        }
    }

    /// Notes that a page is being fetched, and what its waiters listen on.
    pub fn insert(&mut self, hash: String, n: u64, receiver: R)
        requires
            old(self).wf(),
            !old(self)@.contains_key((hash@, n)),
        ensures
            final(self).wf(),
            final(self)@ == old(self)@.insert((hash@, n), receiver),
    {
        let ghost before = self.entries@;
        self.entries.push(((hash, n), receiver));
        proof {
            let after = self.entries@;
            let key = (hash@, n);
            assert(!has_key(before, key));
            assert(forall|i: int| 0 <= i < before.len() ==> after[i] == before[i]);
            assert(entry_key(after[before.len() as int]) == key);
            assert(distinct_keys(after));
            assert(entry_map(after) =~= entry_map(before).insert(key, receiver)) by {
                assert forall|k: PageKey|
                    has_key(after, k) == (has_key(before, k) || k == key) && (has_key(after, k)
                        ==> entry_map(after)[k] == entry_map(before).insert(key, receiver)[k]) by {
                    if has_key(before, k) {
                        let i = position(before, k);
                        assert(after[i] == before[i]);
                        lemma_entry(after, i);
                    }
                    lemma_entry(after, before.len() as int);
                }
            }
        }
    }

    /// Forgets a request, and gives what its waiters listen on, where there was one.
    pub fn remove(&mut self, hash: &str, n: u64) -> (removed: Option<R>)
        requires
            old(self).wf(),
        ensures
            final(self).wf(),
            final(self)@ == old(self)@.remove((hash@, n)),
            removed is Some <==> old(self)@.contains_key((hash@, n)),
            removed matches Some(receiver) ==> receiver == old(self)@[(hash@, n)],
    {
        match self.find(hash, n) {
            Some(i) => {
                let ghost before = self.entries@;
                let entry = self.entries.remove(i);
                proof {
                    lemma_remove(before, i as int);
                }
                Some(entry.1)
            },
            None => {
                assert(self@ =~= self@.remove((hash@, n)));
                None
            },
        }
    }
}

/// The entry of a key is the only one that has it.
proof fn lemma_entry<R>(entries: Seq<((String, u64), R)>, i: int)
    requires
        distinct_keys(entries),
        0 <= i < entries.len(),
    ensures
        entry_map(entries).contains_key(entry_key(entries[i])),
        entry_map(entries)[entry_key(entries[i])] == entries[i].1,
{
    let key = entry_key(entries[i]);
    assert(has_key(entries, key));
    let j = position(entries, key);
    assert(entry_key(entries[j]) == key);
    if i < j {
        assert(entry_key(entries[i]) != entry_key(entries[j]));
    } else if j < i {
        assert(entry_key(entries[j]) != entry_key(entries[i]));
    }
}

/// Taking out an entry takes out its key.
proof fn lemma_remove<R>(before: Seq<((String, u64), R)>, i: int)
    requires
        distinct_keys(before),
        0 <= i < before.len(),
    ensures
        distinct_keys(before.remove(i)),
        entry_map(before.remove(i)) == entry_map(before).remove(entry_key(before[i])),
{
    let after = before.remove(i);
    let key = entry_key(before[i]);
    assert(forall|j: int| 0 <= j < i ==> after[j] == before[j]);
    assert(forall|j: int| i <= j < after.len() ==> after[j] == before[j + 1]);
    assert(distinct_keys(after));
    assert forall|k: PageKey|
        has_key(after, k) == (has_key(before, k) && k != key) && (has_key(after, k)
            ==> entry_map(after)[k] == entry_map(before)[k]) by {
        if has_key(before, k) && k != key {
            let j = position(before, k);
            let at = if j < i { j } else { j - 1 };
            assert(after[at] == before[j]);
            lemma_entry(after, at);
        }
        if has_key(after, k) {
            let j = position(after, k);
            let at = if j < i { j } else { j + 1 };
            assert(after[j] == before[at]);
            lemma_entry(before, at);
            if k == key {
                assert(entry_key(before[at]) == entry_key(before[i]));
            }
        }
    }
    assert(entry_map(after) =~= entry_map(before).remove(key));
}

/// There are as many keys as entries.
proof fn lemma_key_count<R>(entries: Seq<((String, u64), R)>)
    requires
        distinct_keys(entries),
    ensures
        entry_map(entries).dom().finite(),
        entry_map(entries).dom().len() == entries.len(),
    decreases entries.len(),
{
    if entries.len() == 0 {
        assert(entry_map(entries).dom() =~= Set::<PageKey>::empty());
    } else {
        let last = entries.len() - 1;
        let key = entry_key(entries[last]);
        lemma_remove(entries, last);
        lemma_entry(entries, last);
        lemma_key_count(entries.remove(last));
        assert(entry_map(entries).dom() =~= entry_map(entries.remove(last)).dom().insert(key));
    }
}

} // verus!
