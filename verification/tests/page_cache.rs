use blobnet::page_cache::{PageCache, PAGE_CACHE_CAPACITY, PAGE_CACHE_ENTRY_COST};
use hyper::body::Bytes;

#[test]
fn page_cache_eviction() {
    let mut cache = PageCache::default();
    let bigpage = Bytes::from(vec![42; 1 << 21]);
    for i in 0..4096 {
        cache.insert(String::new(), i, bigpage.clone());
    }
    assert_eq!(cache.get(String::new(), 0), None);
    assert_eq!(cache.get(String::new(), 4095), Some(bigpage));
    assert!(cache.len() < 2048);
}

#[test]
fn page_cache_duplicates() {
    let mut cache = PageCache::default();
    let page = Bytes::from(vec![42; 256]);
    for _ in 0..4096 {
        cache.insert(String::new(), 0, page.clone());
    }
    assert_eq!(cache.get(String::new(), 0), Some(page));
    assert!(cache.len() == 1);
}

#[test]
fn page_cache_holds_as_many_pages_as_fit() {
    let mut cache = PageCache::default();
    let bigpage = Bytes::from(vec![42; 1 << 21]);
    for i in 0..100 {
        cache.insert(String::new(), i, bigpage.clone());
    }
    // 31 pages of 2 MiB plus 80 bytes fit into 64 MiB, and 32 do not.
    assert_eq!(cache.len(), 31);
    assert_eq!(cache.peek(String::new(), 68), None);
    assert_eq!(cache.peek(String::new(), 69), Some(bigpage));
}

#[test]
fn page_cache_evicts_the_least_recently_used() {
    let mut cache = PageCache::default();
    let bigpage = Bytes::from(vec![7; 1 << 21]);
    for i in 0..31 {
        cache.insert(String::new(), i, bigpage.clone());
    }
    // A lookup makes a page the most recently used one; a peek does not.
    assert!(cache.get(String::new(), 0).is_some());
    assert!(cache.peek(String::new(), 1).is_some());
    cache.insert(String::new(), 31, bigpage.clone());
    assert_eq!(cache.len(), 31);
    assert_eq!(cache.peek(String::new(), 0), Some(bigpage));
    assert_eq!(cache.peek(String::new(), 1), None);
    assert!(cache.peek(String::new(), 2).is_some());
}

#[test]
fn page_cache_insert_of_a_cached_page_refreshes_and_keeps_it() {
    let mut cache = PageCache::default();
    let bigpage = Bytes::from(vec![7; 1 << 21]);
    for i in 0..31 {
        cache.insert(String::new(), i, bigpage.clone());
    }
    cache.insert(String::new(), 0, Bytes::from_static(b"other"));
    cache.insert(String::new(), 31, bigpage.clone());
    assert_eq!(cache.peek(String::new(), 0), Some(bigpage));
    assert_eq!(cache.peek(String::new(), 1), None);
}

#[test]
fn page_cache_keeps_blobs_and_pages_apart() {
    let mut cache = PageCache::default();
    cache.insert("a".to_string(), 1, Bytes::from_static(b"a1"));
    cache.insert("a".to_string(), 2, Bytes::from_static(b"a2"));
    cache.insert("b".to_string(), 1, Bytes::from_static(b"b1"));
    assert_eq!(cache.get("a".to_string(), 1), Some(Bytes::from_static(b"a1")));
    assert_eq!(cache.get("a".to_string(), 2), Some(Bytes::from_static(b"a2")));
    assert_eq!(cache.get("b".to_string(), 1), Some(Bytes::from_static(b"b1")));
    assert_eq!(cache.get("b".to_string(), 2), None);
    assert_eq!(cache.len(), 3);
}

#[test]
fn page_cache_at_its_limit() {
    let largest = (PAGE_CACHE_CAPACITY - PAGE_CACHE_ENTRY_COST) as usize;
    let mut cache = PageCache::default();
    cache.insert(String::new(), 0, Bytes::from_static(b"small"));
    cache.insert(String::new(), 1, Bytes::from(vec![1; largest]));
    assert_eq!(cache.len(), 1);
    assert!(cache.peek(String::new(), 1).is_some());

    // A page that is too large for the cache empties it.
    cache.insert(String::new(), 2, Bytes::from(vec![1; largest + 1]));
    assert_eq!(cache.len(), 0);
    assert_eq!(cache.get(String::new(), 2), None);
    cache.insert(String::new(), 3, Bytes::from_static(b"again"));
    assert_eq!(cache.get(String::new(), 3), Some(Bytes::from_static(b"again")));
}
