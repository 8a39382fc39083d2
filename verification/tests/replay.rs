use oauthmux::{CacheError, Duration, MemoryReplayCache, ReplayCache};

fn at(millis: u64) -> Duration {
    Duration::from_millis(millis)
}

#[test]
fn an_identifier_is_new_once_within_its_lifetime() {
    let mut cache = MemoryReplayCache::default();
    assert!(cache.first_use("a", at(0), at(100)).unwrap());
    assert!(!cache.first_use("a", at(0), at(100)).unwrap());
    assert!(!cache.first_use("a", at(99), at(100)).unwrap());
    assert!(cache.first_use("b", at(99), at(100)).unwrap());
    assert!(!cache.first_use("b", at(150), at(1)).unwrap());
}

#[test]
fn an_identifier_is_new_again_after_its_lifetime() {
    let mut cache = MemoryReplayCache::default();
    assert!(cache.first_use("a", at(0), at(100)).unwrap());
    assert!(cache.first_use("a", at(100), at(50)).unwrap());
    assert!(!cache.first_use("a", at(149), at(50)).unwrap());
    assert!(cache.first_use("a", at(150), at(50)).unwrap());
}

#[test]
fn a_repetition_does_not_prolong_the_lifetime() {
    let mut cache = MemoryReplayCache::default();
    assert!(cache.first_use("a", at(0), at(100)).unwrap());
    assert!(!cache.first_use("a", at(90), at(100)).unwrap());
    assert!(cache.first_use("a", at(100), at(100)).unwrap());
}

#[test]
fn no_lifetime_means_no_memory() {
    let mut cache = MemoryReplayCache::default();
    assert!(cache.first_use("a", at(5), at(0)).unwrap());
    assert!(cache.first_use("a", at(5), at(0)).unwrap());
}

#[test]
fn cache_errors_say_so() {
    assert_eq!(CacheError("down".to_string()).message(), "replay cache failed: down");
}
