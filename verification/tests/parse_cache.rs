use std::sync::Arc;

use mir_analyzer::parse_cache::ParseCache;

/// A parse result as the cache stores it: the definitions and the issues
/// found alongside them.
#[derive(Clone, Debug, PartialEq)]
struct CachedParse {
    slice: Arc<String>,
    issues: Arc<Vec<String>>,
}

fn empty_issues() -> Arc<Vec<String>> {
    Arc::new(Vec::new())
}

fn entry(issues: Arc<Vec<String>>) -> CachedParse {
    CachedParse { slice: Arc::new(String::new()), issues }
}

#[test]
fn get_is_isolated_per_php_version() {
    let mut cache = ParseCache::with_capacity(8);
    let hash = [1u8; 32];
    cache.insert(hash, 80, entry(empty_issues()));
    assert!(
        cache.get(&hash, 80).is_some(),
        "same content hash + same PHP version must hit"
    );
    assert!(
        cache.get(&hash, 81).is_none(),
        "same content hash but a DIFFERENT PHP version must miss"
    );
}

#[test]
fn two_versions_of_the_same_content_coexist() {
    let mut cache = ParseCache::with_capacity(8);
    let hash = [2u8; 32];
    cache.insert(hash, 80, entry(empty_issues()));
    cache.insert(hash, 81, entry(empty_issues()));
    assert!(cache.get(&hash, 80).is_some());
    assert!(cache.get(&hash, 81).is_some());
    assert_eq!(cache.len(), 2, "both version-specific entries must be retained");
}

#[test]
fn get_returns_the_issues_stored_alongside_the_slice() {
    let mut cache = ParseCache::with_capacity(8);
    let hash = [3u8; 32];
    let issue = "UndefinedVariable: x at a.php:1:0-1".to_string();
    cache.insert(hash, 80, entry(Arc::new(vec![issue.clone()])));
    let cached = cache.get(&hash, 80).expect("hit");
    assert_eq!(cached.issues.len(), 1);
    assert_eq!(cached.issues[0], issue);
}

#[test]
fn fifo_eviction_drops_the_oldest_key() {
    let mut cache = ParseCache::with_capacity(2);
    cache.insert([1u8; 32], 80, 1);
    cache.insert([2u8; 32], 80, 2);
    cache.insert([3u8; 32], 80, 3);
    assert_eq!(cache.len(), 2);
    assert!(cache.get(&[1u8; 32], 80).is_none());
    assert_eq!(cache.get(&[2u8; 32], 80), Some(&2));
    assert_eq!(cache.get(&[3u8; 32], 80), Some(&3));
}

#[test]
fn reinserting_a_present_key_replaces_in_place() {
    let mut cache = ParseCache::with_capacity(2);
    cache.insert([1u8; 32], 80, 1);
    cache.insert([2u8; 32], 80, 2);
    cache.insert([1u8; 32], 80, 10);
    assert_eq!(cache.len(), 2);
    assert_eq!(cache.get(&[1u8; 32], 80), Some(&10));
    // the replaced key keeps its place in the queue: it is still the oldest
    cache.insert([3u8; 32], 80, 3);
    assert!(cache.get(&[1u8; 32], 80).is_none());
    assert_eq!(cache.get(&[2u8; 32], 80), Some(&2));
}

#[test]
fn remove_then_get_misses() {
    let mut cache = ParseCache::with_capacity(4);
    cache.insert([7u8; 32], 80, "x");
    cache.insert([8u8; 32], 80, "y");
    cache.remove(&[7u8; 32], 80);
    assert!(cache.get(&[7u8; 32], 80).is_none());
    assert_eq!(cache.get(&[8u8; 32], 80), Some(&"y"));
    assert_eq!(cache.len(), 1);
    assert!(!cache.is_empty());
}

#[test]
fn stale_queue_entry_evicts_a_reinserted_key() {
    // capacity 1: remove leaves the key queued; re-inserting it and then
    // another key lets eviction pop the stale record first.
    let mut cache = ParseCache::with_capacity(1);
    cache.insert([1u8; 32], 80, 1);
    cache.remove(&[1u8; 32], 80);
    cache.insert([2u8; 32], 80, 2);
    assert_eq!(cache.len(), 1);
    cache.insert([1u8; 32], 80, 11);
    assert_eq!(cache.len(), 1);
    assert!(cache.get(&[1u8; 32], 80).is_none());
    assert_eq!(cache.get(&[2u8; 32], 80), Some(&2));
}

#[test]
fn zero_capacity_holds_one_entry() {
    let mut cache = ParseCache::with_capacity(0);
    assert!(cache.is_empty());
    cache.insert([1u8; 32], 80, 1);
    cache.insert([2u8; 32], 80, 2);
    assert_eq!(cache.len(), 1);
    assert_eq!(cache.get(&[2u8; 32], 80), Some(&2));
}

#[test]
fn default_cache_is_empty() {
    let cache: ParseCache<u8> = ParseCache::default();
    assert!(cache.is_empty());
    assert_eq!(cache.len(), 0);
}
