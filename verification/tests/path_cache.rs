//! The cache of path lookups.

use kernel::scheme::SchemeNamespace;
use kernel::text::{same_text, starts_with};
use kernel::vfs_cache::{
    cache_insert_found, cache_insert_negative, cache_invalidate, cache_invalidate_prefix,
    cache_invalidate_scheme, cache_lookup, cache_stats, current_time_ns, CachedLookup, TimeSpec,
    VfsCache,
};

const SECOND: u64 = 1_000_000_000;

fn ns(id: usize) -> SchemeNamespace {
    SchemeNamespace::new(id)
}

#[test]
fn a_found_path_is_remembered_for_thirty_seconds() {
    let mut cache = VfsCache::new();
    cache.insert_found(ns(1), "file", "/etc/passwd", 42, 0, SECOND);
    let entry = CachedLookup::Found { node_id: 42, expires_at: 31 * SECOND };
    assert_eq!(cache.lookup(ns(1), "file", "/etc/passwd", 2 * SECOND), Some(entry));
    assert_eq!(cache.lookup(ns(1), "file", "/etc/passwd", 31 * SECOND - 1), Some(entry));
    assert_eq!(cache.stats(), (2, 0, 0, 1));
    // Looked up too late, the entry is dropped.
    assert_eq!(cache.lookup(ns(1), "file", "/etc/passwd", 31 * SECOND), None);
    assert_eq!(cache.stats(), (2, 1, 0, 0));
    assert!(entry.is_expired(31 * SECOND));
    assert!(!entry.is_expired(31 * SECOND - 1));
}

#[test]
fn a_missing_path_is_remembered_for_five_seconds() {
    let mut cache = VfsCache::new();
    cache.insert_negative(ns(1), "file", "/nowhere", 0, SECOND);
    let entry = CachedLookup::NotFound { expires_at: 6 * SECOND };
    assert_eq!(cache.lookup(ns(1), "file", "/nowhere", 6 * SECOND - 1), Some(entry));
    assert_eq!(cache.stats(), (1, 0, 1, 1));
    assert_eq!(cache.lookup(ns(1), "file", "/nowhere", 6 * SECOND), None);
    assert_eq!(cache.stats(), (1, 1, 1, 0));
    assert!(entry.is_expired(6 * SECOND));
}

#[test]
fn keys_are_namespace_scheme_and_path() {
    let mut cache = VfsCache::new();
    cache.insert_found(ns(1), "file", "/a", 1, 0, 0);
    assert_eq!(cache.lookup(ns(2), "file", "/a", 1), None);
    assert_eq!(cache.lookup(ns(1), "disk", "/a", 1), None);
    assert_eq!(cache.lookup(ns(1), "file", "/b", 1), None);
    assert!(cache.lookup(ns(1), "file", "/a", 1).is_some());
    assert_eq!(cache.stats(), (1, 3, 0, 1));
}

#[test]
fn a_later_entry_replaces_an_earlier_one() {
    let mut cache = VfsCache::new();
    cache.insert_negative(ns(1), "file", "/a", 0, 0);
    cache.insert_found(ns(1), "file", "/a", 9, 0, 1);
    assert_eq!(
        cache.lookup(ns(1), "file", "/a", 2),
        Some(CachedLookup::Found { node_id: 9, expires_at: 30 * SECOND + 1 })
    );
    assert_eq!(cache.stats().3, 1);
}

#[test]
fn entries_are_invalidated() {
    let mut cache = VfsCache::new();
    for path in ["/a", "/a/b", "/ab", "/b"] {
        cache_insert_found(&mut cache, ns(1), "file", path, 1, 0, 0);
        cache_insert_negative(&mut cache, ns(1), "disk", path, 0, 0);
        cache_insert_negative(&mut cache, ns(2), "file", path, 0, 0);
    }
    assert_eq!(cache_stats(&cache).3, 12);
    cache_invalidate(&mut cache, ns(1), "file", "/b");
    cache_invalidate(&mut cache, ns(1), "file", "/c");
    assert_eq!(cache_stats(&cache).3, 11);
    assert_eq!(cache_lookup(&mut cache, ns(1), "file", "/b", 1), None);
    cache_invalidate_prefix(&mut cache, ns(1), "file", "/a/");
    assert_eq!(cache_stats(&cache).3, 10);
    assert_eq!(cache_lookup(&mut cache, ns(1), "file", "/a/b", 1), None);
    assert!(cache_lookup(&mut cache, ns(1), "file", "/a", 1).is_some());
    cache_invalidate_prefix(&mut cache, ns(1), "file", "/a");
    assert_eq!(cache_stats(&cache).3, 8);
    cache_invalidate_scheme(&mut cache, ns(2), "file");
    assert_eq!(cache_stats(&cache).3, 4);
    // The empty prefix is every path of the scheme.
    cache_invalidate_prefix(&mut cache, ns(1), "disk", "");
    assert_eq!(cache_stats(&cache).3, 0);
}

#[test]
fn expired_entries_make_room_first() {
    let mut cache = VfsCache::new();
    for i in 0..2048u64 {
        cache.insert_negative(ns(1), "file", &format!("/old{:04}", i), 0, 0);
        cache.insert_found(ns(1), "file", &format!("/new{:04}", i), i, 0, 0);
    }
    assert_eq!(cache.stats().3, 4096);
    cache.insert_found(ns(1), "file", "/z", 0, 6 * SECOND, 6 * SECOND);
    assert_eq!(cache.stats().3, 2049);
    assert!(cache.lookup(ns(1), "file", "/new0000", 6 * SECOND).is_some());
    assert!(cache.lookup(ns(1), "file", "/old0000", 6 * SECOND).is_none());
}

#[test]
fn the_oldest_quarter_makes_room_where_nothing_has_expired() {
    let mut cache = VfsCache::new();
    for i in (0..4096u64).rev() {
        cache.insert_found(ns(1), "file", &format!("/{:04}", i), i, 0, 0);
    }
    assert_eq!(cache.stats().3, 4096);
    cache.insert_found(ns(0), "file", "/", 0, 1, 1);
    assert_eq!(cache.stats().3, 3073);
    assert!(cache.lookup(ns(0), "file", "/", 2).is_some());
    // Those put in first are gone, whatever their paths.
    for i in 3072..4096 {
        assert!(cache.lookup(ns(1), "file", &format!("/{:04}", i), 2).is_none());
    }
    for i in 0..3072 {
        assert!(cache.lookup(ns(1), "file", &format!("/{:04}", i), 2).is_some());
    }
}

#[test]
fn a_path_put_in_again_is_new_again() {
    let mut cache = VfsCache::new();
    for i in 0..4095u64 {
        cache.insert_found(ns(1), "file", &format!("/{:04}", i), i, 0, 0);
    }
    cache.insert_found(ns(1), "file", "/0000", 0, 1, 1);
    cache.insert_found(ns(1), "file", "/last", 0, 1, 1);
    assert_eq!(cache.stats().3, 4096);
    cache.insert_found(ns(1), "file", "/more", 0, 1, 1);
    assert_eq!(cache.stats().3, 3073);
    assert!(cache.lookup(ns(1), "file", "/0000", 2).is_some());
    assert!(cache.lookup(ns(1), "file", "/1024", 2).is_none());
    assert!(cache.lookup(ns(1), "file", "/1025", 2).is_some());
}

#[test]
fn time_is_counted_in_nanoseconds() {
    assert_eq!(current_time_ns(&TimeSpec { tv_sec: 3, tv_nsec: 7 }), 3_000_000_007);
}

#[test]
fn texts_are_compared_by_their_bytes() {
    assert!(same_text("caf\u{e9}", "caf\u{e9}") && !same_text("cafe", "caf\u{e9}"));
    assert!(starts_with("caf\u{e9}s", "caf\u{e9}") && !starts_with("caf", "caf\u{e9}"));
    assert!(starts_with("", "") && starts_with("a", ""));
}
