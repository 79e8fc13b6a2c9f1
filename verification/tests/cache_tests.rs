use chat_relay::cache::SessionCache;
use chat_relay::recon::apply_reconciliation;

#[test]
fn fresh_cache_holds_nothing() {
    let cache = SessionCache::new();
    assert!(!cache.contains("tok-A"));
    assert!(!cache.contains(""));
}

#[test]
fn insert_makes_token_visible() {
    let mut cache = SessionCache::new();
    cache.insert(String::from("tok-A"));
    assert!(cache.contains("tok-A"));
    assert!(!cache.contains("tok-B"));
}

#[test]
fn insert_is_idempotent() {
    let mut cache = SessionCache::new();
    cache.insert(String::from("tok-A"));
    cache.insert(String::from("tok-A"));
    assert!(cache.contains("tok-A"));
    cache.remove("tok-A");
    assert!(!cache.contains("tok-A"));
}

#[test]
fn remove_hides_token_immediately() {
    let mut cache = SessionCache::new();
    cache.insert(String::from("tok-A"));
    cache.insert(String::from("tok-B"));
    cache.remove("tok-A");
    assert!(!cache.contains("tok-A"));
    assert!(cache.contains("tok-B"));
}

#[test]
fn remove_of_absent_token_changes_nothing() {
    let mut cache = SessionCache::new();
    cache.insert(String::from("tok-A"));
    cache.remove("tok-B");
    assert!(cache.contains("tok-A"));
}

#[test]
fn replace_all_swaps_the_full_set() {
    let mut cache = SessionCache::new();
    cache.insert(String::from("old-1"));
    cache.insert(String::from("old-2"));
    cache.replace_all(vec![String::from("new-1"), String::from("new-2")]);
    assert!(!cache.contains("old-1"));
    assert!(!cache.contains("old-2"));
    assert!(cache.contains("new-1"));
    assert!(cache.contains("new-2"));
}

#[test]
fn replace_all_keeps_overlap_and_tolerates_duplicates() {
    let mut cache = SessionCache::new();
    cache.insert(String::from("kept"));
    cache.insert(String::from("dropped"));
    cache.replace_all(vec![
        String::from("kept"),
        String::from("kept"),
        String::from("fresh"),
    ]);
    assert!(cache.contains("kept"));
    assert!(cache.contains("fresh"));
    assert!(!cache.contains("dropped"));
}

#[test]
fn replace_all_with_empty_list_empties_the_cache() {
    let mut cache = SessionCache::new();
    cache.insert(String::from("tok-A"));
    cache.replace_all(Vec::new());
    assert!(!cache.contains("tok-A"));
}

#[test]
fn reconciliation_applies_fetched_set() {
    let mut cache = SessionCache::new();
    cache.insert(String::from("stale"));
    apply_reconciliation(&mut cache, Some(vec![String::from("live-1"), String::from("live-2")]));
    assert!(!cache.contains("stale"));
    assert!(cache.contains("live-1"));
    assert!(cache.contains("live-2"));
}

#[test]
fn failed_reconciliation_leaves_cache_untouched() {
    let mut cache = SessionCache::new();
    cache.insert(String::from("tok-A"));
    apply_reconciliation(&mut cache, None);
    assert!(cache.contains("tok-A"));
    assert!(!cache.contains("tok-B"));
}

#[test]
fn reconciliation_twice_with_same_list_changes_nothing_more() {
    let mut cache = SessionCache::new();
    cache.insert(String::from("pre"));
    let fetched = vec![String::from("a"), String::from("b")];
    apply_reconciliation(&mut cache, Some(fetched.clone()));
    let first: Vec<bool> = vec![
        cache.contains("a"),
        cache.contains("b"),
        cache.contains("pre"),
        cache.contains("c"),
    ];
    apply_reconciliation(&mut cache, Some(fetched));
    let second: Vec<bool> = vec![
        cache.contains("a"),
        cache.contains("b"),
        cache.contains("pre"),
        cache.contains("c"),
    ];
    assert_eq!(first, vec![true, true, false, false]);
    assert_eq!(second, first);
}
