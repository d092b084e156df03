use excavator::cache::{AsyncCache, PollStatus};
use excavator::error::DataError;
use excavator::location::{FsItemKind, ItemInfo};

fn key(name: &str) -> ItemInfo {
    ItemInfo::Fs {
        path: name.to_string(),
        kind: FsItemKind::File,
    }
}

#[test]
fn first_poll_starts_exactly_one_production() {
    let mut cache: AsyncCache<Vec<u8>> = AsyncCache::new();
    let k = key("a");
    // The first poll on a fresh key is not ready and starts the production.
    assert_eq!(cache.read_or_request(&k, true), PollStatus::Start);
    assert!(cache.get(&k).is_none());
    // Polls before completion stay not ready and start nothing further.
    assert_eq!(cache.read_or_request(&k, true), PollStatus::Pending);
    assert_eq!(cache.read_or_request(&k, true), PollStatus::Pending);
    assert!(cache.get(&k).is_none());
}

#[test]
fn completion_is_memoized() {
    let mut cache: AsyncCache<Vec<u8>> = AsyncCache::new();
    let k = key("a");
    assert_eq!(cache.read_or_request(&k, true), PollStatus::Start);
    cache.fulfill(&k, Ok(vec![1, 2, 3]));
    // Every further poll returns the same stored result.
    assert_eq!(cache.read_or_request(&k, true), PollStatus::Ready);
    assert_eq!(cache.get(&k), Some(&Ok(vec![1, 2, 3])));
    assert_eq!(cache.read_or_request(&k, true), PollStatus::Ready);
    assert_eq!(cache.get(&k), Some(&Ok(vec![1, 2, 3])));
    // A stored result is never overwritten.
    cache.fulfill(&k, Ok(vec![9]));
    assert_eq!(cache.get(&k), Some(&Ok(vec![1, 2, 3])));
}

#[test]
fn failures_are_observable() {
    let mut cache: AsyncCache<Vec<u8>> = AsyncCache::new();
    let k = key("a");
    assert_eq!(cache.read_or_request(&k, true), PollStatus::Start);
    cache.fulfill(&k, Err(DataError::IoError("read failed".to_string())));
    assert_eq!(cache.read_or_request(&k, true), PollStatus::Ready);
    assert_eq!(
        cache.get(&k),
        Some(&Err(DataError::IoError("read failed".to_string())))
    );
}

#[test]
fn keys_are_independent() {
    let mut cache: AsyncCache<Vec<u8>> = AsyncCache::new();
    let a = key("a");
    let b = key("b");
    assert_eq!(cache.read_or_request(&a, true), PollStatus::Start);
    assert_eq!(cache.read_or_request(&b, true), PollStatus::Start);
    cache.fulfill(&a, Ok(vec![1]));
    assert_eq!(cache.read_or_request(&a, true), PollStatus::Ready);
    assert_eq!(cache.read_or_request(&b, true), PollStatus::Pending);
}

#[test]
fn fulfilling_an_unknown_key_changes_nothing() {
    let mut cache: AsyncCache<Vec<u8>> = AsyncCache::new();
    let a = key("a");
    cache.fulfill(&a, Ok(vec![1]));
    assert!(cache.get(&a).is_none());
    // The key was never requested, so the next poll still starts it.
    assert_eq!(cache.read_or_request(&a, true), PollStatus::Start);
}

#[test]
fn discard_honors_retain_flag() {
    let mut cache: AsyncCache<Vec<u8>> = AsyncCache::new();
    let a = key("a");
    let b = key("b");
    assert_eq!(cache.read_or_request(&a, false), PollStatus::Start);
    assert_eq!(cache.read_or_request(&b, true), PollStatus::Start);
    cache.fulfill(&a, Ok(vec![1]));
    cache.fulfill(&b, Ok(vec![2]));
    cache.discard(&a);
    cache.discard(&b);
    // Without retain the result is dropped and a new cycle begins.
    assert!(cache.get(&a).is_none());
    assert_eq!(cache.read_or_request(&a, false), PollStatus::Start);
    // With retain the result stays available for instant reuse.
    assert_eq!(cache.get(&b), Some(&Ok(vec![2])));
    assert_eq!(cache.read_or_request(&b, true), PollStatus::Ready);
}
