//! Path lookups that need not be repeated.
//!
//! The cache remembers of a path that it does not exist, or which node it leads
//! to, until the entry expires or is invalidated. Its entries are kept in the
//! order in which they were put in, so that the oldest can make room for others.

use crate::counter;
use crate::scheme::SchemeNamespace;
use crate::text::{same_text, starts_with};
use vstd::prelude::*;

verus! {

/// How long a path that does not exist is remembered, in nanoseconds.
pub const NEGATIVE_CACHE_TTL_NS: u64 = 5_000_000_000;

/// How long a path that exists is remembered, in nanoseconds.
pub const POSITIVE_CACHE_TTL_NS: u64 = 30_000_000_000;

/// How many entries there may be.
pub const MAX_CACHE_ENTRIES: usize = 4096;

/// What is remembered of a path.
#[derive(Clone, Copy, Debug, PartialEq, Eq, Structural)]
pub enum CachedLookup {
    /// It does not exist.
    NotFound {
        /// When this is forgotten, in nanoseconds.
        expires_at: u64,
    },
    /// It exists.
    Found {
        /// The node that it leads to.
        node_id: u64,
        /// When this is forgotten, in nanoseconds.
        expires_at: u64,
    },
}

impl CachedLookup {
    /// When the entry is forgotten.
    pub open spec fn deadline(self) -> u64 {
        match self {
            CachedLookup::NotFound { expires_at } => expires_at,
            CachedLookup::Found { expires_at, .. } => expires_at,
        }
    }

    /// Tests whether the entry is to be forgotten.
    pub fn is_expired(&self, now: u64) -> (expired: bool)
        ensures
            expired == (now >= self.deadline()),
    {
        match self {
            CachedLookup::NotFound { expires_at } => now >= *expires_at,
            CachedLookup::Found { expires_at, .. } => now >= *expires_at,
        }
    }
}

/// Namespace, scheme and path.
pub type KeyView = (usize, Seq<char>, Seq<char>);

/// What the cache holds, by key.
pub type CacheMap = Map<KeyView, CachedLookup>;

/// The entries of the cache, from the oldest to the newest.
pub type Listing = Seq<(KeyView, CachedLookup)>;

/// The key of a path.
pub open spec fn key_of(namespace: SchemeNamespace, scheme: &str, path: &str) -> KeyView {
    (namespace.id, scheme@, path@)
}

/// No key occurs twice.
pub open spec fn distinct(listing: Listing) -> bool {
    forall|i: int, j: int|
        0 <= i < j < listing.len() ==> (#[trigger] listing[i]).0 != (#[trigger] listing[j]).0
}

/// The entry at `at` has the given key.
pub open spec fn is_entry(listing: Listing, key: KeyView, at: int) -> bool {
    0 <= at < listing.len() && listing[at].0 == key
}

/// When the entry of a key was put in: its place among the entries, from the
/// oldest to the newest.
pub open spec fn stamp(listing: Listing, key: KeyView) -> int {
    choose|at: int| is_entry(listing, key, at)
}

/// The entries by key.
pub open spec fn listing_map(listing: Listing) -> CacheMap {
    Map::new(
        |key: KeyView| exists|at: int| is_entry(listing, key, at),
        |key: KeyView| listing[stamp(listing, key)].1,
    )
}

/// An entry is found under its key, and there is only one.
pub proof fn lemma_listing_entry(listing: Listing, at: int)
    requires
        distinct(listing),
        0 <= at < listing.len(),
    ensures
        listing_map(listing).contains_key(listing[at].0),
        listing_map(listing)[listing[at].0] == listing[at].1,
        stamp(listing, listing[at].0) == at,
{
    let key = listing[at].0;
    assert(is_entry(listing, key, at));
    let other = stamp(listing, key);
    assert(is_entry(listing, key, other));
    if other < at {
        assert(listing[other].0 != listing[at].0);
    } else if at < other {
        assert(listing[at].0 != listing[other].0);
    }
}

/// There is one entry for each key.
pub proof fn lemma_listing_size(listing: Listing)
    requires
        distinct(listing),
    ensures
        listing_map(listing).dom().finite(),
        listing_map(listing).dom().len() == listing.len(),
    decreases listing.len(),
{
    let map = listing_map(listing);
    if listing.len() == 0 {
        assert(map.dom() =~= Set::empty());
    } else {
        let before = listing.drop_last();
        assert forall|i: int, j: int| 0 <= i < j < before.len() implies (#[trigger] before[i]).0
            != (#[trigger] before[j]).0 by {
            assert(listing[i].0 != listing[j].0);
        }
        lemma_listing_size(before);
        lemma_listing_push(before, listing.last());
        assert(listing =~= before.push(listing.last()));
        assert(map.dom() =~= listing_map(before).dom().insert(listing.last().0));
    }
}

/// A listing has the entries of a map if it has an entry for every key of the map
/// and no other.
proof fn lemma_listing_map_is(listing: Listing, map: CacheMap)
    requires
        distinct(listing),
        forall|i: int|
            0 <= i < listing.len() ==> map.contains_key((#[trigger] listing[i]).0)
                && map[listing[i].0] == listing[i].1,
        forall|key: KeyView| #[trigger]
            map.contains_key(key) ==> exists|at: int| is_entry(listing, key, at),
    ensures
        listing_map(listing) == map,
{
    let lm = listing_map(listing);
    assert forall|key: KeyView| lm.contains_key(key) implies map.contains_key(key) && lm[key]
        == map[key] by {
        lemma_listing_entry(listing, stamp(listing, key));
    }
    assert(lm =~= map);
}

/// An entry with a new key behind the others.
proof fn lemma_listing_push(listing: Listing, entry: (KeyView, CachedLookup))
    requires
        distinct(listing.push(entry)),
    ensures
        distinct(listing),
        !listing_map(listing).contains_key(entry.0),
        listing_map(listing.push(entry)) == listing_map(listing).insert(entry.0, entry.1),
{
    let longer = listing.push(entry);
    let map = listing_map(listing).insert(entry.0, entry.1);
    assert forall|i: int, j: int| 0 <= i < j < listing.len() implies (#[trigger] listing[i]).0 != (
    #[trigger] listing[j]).0 by {
        assert(longer[i].0 != longer[j].0);
    }
    assert(!listing_map(listing).contains_key(entry.0)) by {
        if listing_map(listing).contains_key(entry.0) {
            let at = stamp(listing, entry.0);
            assert(is_entry(listing, entry.0, at));
            assert(longer[at].0 != longer[listing.len() as int].0);
        }
    }
    assert forall|i: int| 0 <= i < longer.len() implies map.contains_key((#[trigger] longer[i]).0)
        && map[longer[i].0] == longer[i].1 by {
        if i < listing.len() {
            assert(longer[i] == listing[i]);
            lemma_listing_entry(listing, i);
        }
    }
    assert forall|key: KeyView| #[trigger] map.contains_key(key) implies exists|at: int|
        is_entry(longer, key, at) by {
        if key == entry.0 {
            assert(is_entry(longer, key, listing.len() as int));
        } else {
            assert(is_entry(listing, key, stamp(listing, key)));
            assert(is_entry(longer, key, stamp(listing, key)));
        }
    }
    lemma_listing_map_is(longer, map);
}

/// A filter keeps the order: where two entries that it keeps stood before.
proof fn lemma_filter_order(
    listing: Listing,
    pred: Test,
    a: int,
    b: int,
) -> (places: (int, int))
    requires
        0 <= a < b < listing.filter(pred).len(),
    ensures
        0 <= places.0 < places.1 < listing.len(),
        listing[places.0] == listing.filter(pred)[a],
        listing[places.1] == listing.filter(pred)[b],
    decreases listing.len(),
{
    reveal(Seq::filter);
    let before = listing.drop_last();
    let kept = before.filter(pred);
    if b < kept.len() {
        lemma_filter_order(before, pred, a, b)
    } else {
        before.lemma_filter_contains_rev(pred, kept[a]);
        (choose|i: int| 0 <= i < before.len() && before[i] == kept[a], listing.len() - 1)
    }
}

/// What a filter does to the entries by key.
proof fn lemma_filter_map(
    listing: Listing,
    pred: Test,
    map: CacheMap,
)
    requires
        distinct(listing),
        forall|key: KeyView| #[trigger]
            map.contains_key(key) <==> listing_map(listing).contains_key(key) && pred(
                (key, listing_map(listing)[key]),
            ),
        forall|key: KeyView| #[trigger]
            map.contains_key(key) ==> map[key] == listing_map(listing)[key],
    ensures
        distinct(listing.filter(pred)),
        listing.filter(pred).len() <= listing.len(),
        listing_map(listing.filter(pred)) == map,
{
    let kept = listing.filter(pred);
    listing.lemma_filter_len(pred);
    assert forall|i: int, j: int| 0 <= i < j < kept.len() implies (#[trigger] kept[i]).0 != (
    #[trigger] kept[j]).0 by {
        let (oi, oj) = lemma_filter_order(listing, pred, i, j);
        assert(listing[oi].0 != listing[oj].0);
    }
    assert forall|i: int| 0 <= i < kept.len() implies map.contains_key((#[trigger] kept[i]).0)
        && map[kept[i].0] == kept[i].1 by {
        listing.lemma_filter_pred(pred, i);
        assert(kept.contains(kept[i]));
        listing.lemma_filter_contains_rev(pred, kept[i]);
        let k = choose|k: int| 0 <= k < listing.len() && listing[k] == kept[i];
        lemma_listing_entry(listing, k);
    }
    assert forall|key: KeyView| #[trigger] map.contains_key(key) implies exists|at: int|
        is_entry(kept, key, at) by {
        let k = stamp(listing, key);
        assert(is_entry(listing, key, k));
        lemma_listing_entry(listing, k);
        listing.lemma_filter_contains(pred, k);
        let i = choose|i: int| 0 <= i < kept.len() && kept[i] == listing[k];
        assert(is_entry(kept, key, i));
    }
    lemma_listing_map_is(kept, map);
}

/// A test of an entry.
pub type Test = spec_fn((KeyView, CachedLookup)) -> bool;

/// The entry has another key.
pub open spec fn other_than(key: KeyView) -> Test {
    |entry: (KeyView, CachedLookup)| entry.0 != key
}

/// The time of the entry has not come.
pub open spec fn not_expired(now: u64) -> Test {
    |entry: (KeyView, CachedLookup)| now < entry.1.deadline()
}

/// The entry belongs to another scheme.
pub open spec fn outside_scheme(namespace: usize, scheme: Seq<char>) -> Test {
    |entry: (KeyView, CachedLookup)| !(entry.0.0 == namespace && entry.0.1 == scheme)
}

/// The entry belongs to another scheme, or its path does not start with `prefix`.
pub open spec fn outside_prefix(namespace: usize, scheme: Seq<char>, prefix: Seq<char>) -> Test {
    |entry: (KeyView, CachedLookup)|
        !(entry.0.0 == namespace && entry.0.1 == scheme && prefix.is_prefix_of(entry.0.2))
}

/// The entries but that of one key.
pub open spec fn without_key(listing: Listing, key: KeyView) -> Listing {
    listing.filter(other_than(key))
}

/// What taking a key out does to the entries by key.
proof fn lemma_without_key(listing: Listing, key: KeyView)
    requires
        distinct(listing),
    ensures
        distinct(without_key(listing, key)),
        without_key(listing, key).len() <= listing.len(),
        listing_map(without_key(listing, key)) == listing_map(listing).remove(key),
{
    lemma_filter_map(
        listing,
        other_than(key),
        listing_map(listing).remove(key),
    );
}

/// Without its only entry for a key, a listing is what is left without the key.
proof fn lemma_remove_is_without(listing: Listing, at: int)
    requires
        distinct(listing),
        0 <= at < listing.len(),
    ensures
        listing.remove(at) == without_key(listing, listing[at].0),
    decreases listing.len(),
{
    let key = listing[at].0;
    let pred = other_than(key);
    reveal(Seq::filter);
    let before = listing.drop_last();
    assert forall|i: int, j: int| 0 <= i < j < before.len() implies (#[trigger] before[i]).0 != (
    #[trigger] before[j]).0 by {
        assert(listing[i].0 != listing[j].0);
    }
    if at == listing.len() - 1 {
        lemma_filter_keeps_all(before, pred);
        assert(listing.remove(at) =~= before);
    } else {
        lemma_remove_is_without(before, at);
        assert(listing[at].0 != listing[listing.len() - 1].0);
        assert(listing.remove(at) =~= before.remove(at).push(listing.last()));
    }
}

/// A filter that every entry satisfies keeps all of them.
proof fn lemma_filter_keeps_all(
    listing: Listing,
    pred: Test,
)
    requires
        forall|i: int| 0 <= i < listing.len() ==> pred(#[trigger] listing[i]),
    ensures
        listing.filter(pred) == listing,
    decreases listing.len(),
{
    reveal(Seq::filter);
    if listing.len() > 0 {
        assert(pred(listing[listing.len() - 1]));
        lemma_filter_keeps_all(listing.drop_last(), pred);
        assert(listing.filter(pred) =~= listing);
    }
}

/// The entries whose time has not come.
pub open spec fn live(listing: Listing, now: u64) -> Listing {
    listing.filter(not_expired(now))
}

/// What is left of the entries before another is added: all of them while there
/// is room; else those whose time has not come, without the oldest quarter if
/// there still is no room.
pub open spec fn evicted(listing: Listing, now: u64) -> Listing {
    if listing.len() < MAX_CACHE_ENTRIES {
        listing
    } else if live(listing, now).len() < MAX_CACHE_ENTRIES {
        live(listing, now)
    } else {
        live(listing, now).skip(live(listing, now).len() as int / 4)
    }
}

/// The entries behind an insertion: room is made, and the entry is the newest,
/// in place of an earlier one for its key.
pub open spec fn inserted(
    listing: Listing,
    key: KeyView,
    entry: CachedLookup,
    evict_time: u64,
) -> Listing {
    without_key(evicted(listing, evict_time), key).push((key, entry))
}

/// What making room does to the entries.
proof fn lemma_evicted(listing: Listing, now: u64)
    requires
        distinct(listing),
        listing.len() <= MAX_CACHE_ENTRIES,
    ensures
        distinct(evicted(listing, now)),
        evicted(listing, now).len() < MAX_CACHE_ENTRIES,
{
    let survivors = live(listing, now);
    let rest = evicted(listing, now);
    lemma_live(listing, now);
    assert forall|i: int, j: int| 0 <= i < j < rest.len() implies (#[trigger] rest[i]).0 != (
    #[trigger] rest[j]).0 by {
        if listing.len() >= MAX_CACHE_ENTRIES && survivors.len() >= MAX_CACHE_ENTRIES {
            let q = survivors.len() as int / 4;
            assert(survivors[i + q].0 != survivors[j + q].0);
        }
    }
}

/// What dropping what has expired does to the entries.
proof fn lemma_live(listing: Listing, now: u64)
    requires
        distinct(listing),
    ensures
        distinct(live(listing, now)),
        live(listing, now).len() <= listing.len(),
{
    let map = listing_map(listing);
    lemma_filter_map(
        listing,
        not_expired(now),
        Map::new(
            |key: KeyView| map.contains_key(key) && now < map[key].deadline(),
            |key: KeyView| map[key],
        ),
    );
}

/// What an insertion does to the entries.
proof fn lemma_inserted(listing: Listing, key: KeyView, entry: CachedLookup, evict_time: u64)
    requires
        distinct(listing),
        listing.len() <= MAX_CACHE_ENTRIES,
    ensures
        distinct(inserted(listing, key, entry, evict_time)),
        inserted(listing, key, entry, evict_time).len() <= MAX_CACHE_ENTRIES,
        listing_map(inserted(listing, key, entry, evict_time)) == listing_map(
            evicted(listing, evict_time),
        ).insert(key, entry),
{
    let rest = evicted(listing, evict_time);
    let others = without_key(rest, key);
    lemma_evicted(listing, evict_time);
    lemma_without_key(rest, key);
    let longer = others.push((key, entry));
    assert forall|i: int, j: int| 0 <= i < j < longer.len() implies (#[trigger] longer[i]).0 != (
    #[trigger] longer[j]).0 by {
        assert(longer[i] == others[i]);
        if j < others.len() {
            assert(others[i].0 != others[j].0);
        } else {
            rest.lemma_filter_pred(other_than(key), i);
        }
    }
    lemma_listing_push(others, (key, entry));
    assert(listing_map(rest).remove(key).insert(key, entry) =~= listing_map(rest).insert(
        key,
        entry,
    ));
}

/// What a lookup finds.
pub open spec fn lookup_result(map: CacheMap, key: KeyView, now: u64) -> Option<CachedLookup> {
    if map.contains_key(key) && now < map[key].deadline() {
        Some(map[key])
    } else {
        None
    }
}

/// The entries behind a lookup: one whose time has come is forgotten.
pub open spec fn after_lookup(listing: Listing, key: KeyView, now: u64) -> Listing {
    if listing_map(listing).contains_key(key) && now >= listing_map(listing)[key].deadline() {
        without_key(listing, key)
    } else {
        listing
    }
}

/// The entries by key behind a lookup.
pub open spec fn map_after_lookup(map: CacheMap, key: KeyView, now: u64) -> CacheMap {
    if map.contains_key(key) && now >= map[key].deadline() {
        map.remove(key)
    } else {
        map
    }
}

/// The entries but those of a scheme.
pub open spec fn scheme_forgotten(listing: Listing, namespace: usize, scheme: Seq<char>) -> Listing {
    listing.filter(outside_scheme(namespace, scheme))
}

/// The entries but those of a scheme whose paths start with `prefix`.
pub open spec fn prefix_forgotten(
    listing: Listing,
    namespace: usize,
    scheme: Seq<char>,
    prefix: Seq<char>,
) -> Listing {
    listing.filter(outside_prefix(namespace, scheme, prefix))
}

/// `map` without the entries of a scheme.
pub open spec fn without_scheme(map: CacheMap, namespace: usize, scheme: Seq<char>) -> CacheMap {
    Map::new(
        |key: KeyView| map.contains_key(key) && !(key.0 == namespace && key.1 == scheme),
        |key: KeyView| map[key],
    )
}

/// `map` without the entries of a scheme whose paths start with `prefix`.
pub open spec fn without_prefix(
    map: CacheMap,
    namespace: usize,
    scheme: Seq<char>,
    prefix: Seq<char>,
) -> CacheMap {
    Map::new(
        |key: KeyView|
            map.contains_key(key) && !(key.0 == namespace && key.1 == scheme && prefix.is_prefix_of(
                key.2,
            )),
        |key: KeyView| map[key],
    )
}

/// Namespace, scheme and path.
struct CacheKey {
    namespace: usize,
    scheme: String,
    path: String,
}

impl CacheKey {
    spec fn key(self) -> KeyView {
        (self.namespace, self.scheme@, self.path@)
    }

    fn new(namespace: SchemeNamespace, scheme: &str, path: &str) -> (key: Self)
        ensures
            key.key() == key_of(namespace, scheme, path),
    {
        CacheKey { namespace: namespace.id, scheme: scheme.to_owned(), path: path.to_owned() }
    }

    fn same(&self, other: &Self) -> (same: bool)
        ensures
            same == (self.key() == other.key()),
    {
        self.namespace == other.namespace && same_text(
            self.scheme.as_str(),
            other.scheme.as_str(),
        ) && same_text(self.path.as_str(), other.path.as_str())
    }
}

/// Which entries are kept.
enum Keep<'a> {
    /// Those that have not expired at this time.
    Live(u64),
    /// Those of other schemes.
    OtherSchemes(usize, &'a str),
    /// Those of other schemes, or with other paths.
    OtherPaths(usize, &'a str, &'a str),
}

impl<'a> Keep<'a> {
    spec fn kept(self) -> Test {
        match self {
            Keep::Live(now) => not_expired(now),
            Keep::OtherSchemes(namespace, scheme) => outside_scheme(namespace, scheme@),
            Keep::OtherPaths(namespace, scheme, prefix) => outside_prefix(
                namespace,
                scheme@,
                prefix@,
            ),
        }
    }

    fn test(&self, key: &CacheKey, entry: &CachedLookup) -> (kept: bool)
        ensures
            kept == (self.kept())((key.key(), *entry)),
    {
        match self {
            Keep::Live(now) => !entry.is_expired(*now),
            Keep::OtherSchemes(namespace, scheme) => !(key.namespace == *namespace && same_text(
                key.scheme.as_str(),
                scheme,
            )),
            Keep::OtherPaths(namespace, scheme, prefix) => !(key.namespace == *namespace
                && same_text(key.scheme.as_str(), scheme) && starts_with(key.path.as_str(), prefix)),
        }
    }
}

/// The cache.
pub struct VfsCache {
    entries: Vec<(CacheKey, CachedLookup)>,
    hits: u64,
    misses: u64,
    negative_hits: u64,
}

spec fn listing_of(entries: Seq<(CacheKey, CachedLookup)>) -> Listing {
    Seq::new(entries.len(), |i: int| (entries[i].0.key(), entries[i].1))
}

impl View for VfsCache {
    type V = CacheMap;

    open spec fn view(&self) -> CacheMap {
        listing_map(self.listing())
    }
}

impl VfsCache {
    /// The entries from the oldest to the newest.
    pub closed spec fn listing(&self) -> Listing {
        listing_of(self.entries@)
    }

    /// Number of lookups that found something.
    pub closed spec fn hit_count(&self) -> u64 {
        self.hits
    }

    /// Number of lookups that found nothing.
    pub closed spec fn miss_count(&self) -> u64 {
        self.misses
    }

    /// Number of lookups that found that a path does not exist.
    pub closed spec fn negative_hit_count(&self) -> u64 {
        self.negative_hits
    }

    /// The cache is in order: no key occurs twice, and there are not too many
    /// entries.
    pub open spec fn wf(&self) -> bool {
        &&& distinct(self.listing())
        &&& self.listing().len() <= MAX_CACHE_ENTRIES
    }

    /// `other` has the same counters.
    pub open spec fn same_counters(&self, other: &Self) -> bool {
        &&& self.hit_count() == other.hit_count()
        &&& self.miss_count() == other.miss_count()
        &&& self.negative_hit_count() == other.negative_hit_count()
    }

    /// A cache without entries.
    pub fn new() -> (cache: Self)
        ensures
            cache.wf(),
            cache@ == Map::<KeyView, CachedLookup>::empty(),
            cache.listing() == Seq::<(KeyView, CachedLookup)>::empty(),
            cache.hit_count() == 0,
            cache.miss_count() == 0,
            cache.negative_hit_count() == 0,
    {
        let cache = VfsCache { entries: Vec::new(), hits: 0, misses: 0, negative_hits: 0 };
        assert(cache.listing() =~= Seq::empty());
        assert(cache@ =~= Map::empty());
        cache
    }

    /// Finds the entry of a key.
    fn position(&self, key: &CacheKey) -> (found: Option<usize>)
        requires
            self.wf(),
        ensures
            found is Some <==> self@.contains_key(key.key()),
            found matches Some(at) ==> is_entry(self.listing(), key.key(), at as int)
                && self@[key.key()] == self.listing()[at as int].1,
    {
        let ghost listing = self.listing();
        let mut i: usize = 0;
        while i < self.entries.len()
            invariant
                i <= self.entries@.len(),
                self.wf(),
                listing == self.listing(),
                listing.len() == self.entries@.len(),
                forall|j: int| 0 <= j < i ==> (#[trigger] listing[j]).0 != key.key(),
            decreases self.entries@.len() - i,
        {
            assert(listing[i as int].0 == self.entries@[i as int].0.key());
            if self.entries[i].0.same(key) {
                proof {
                    lemma_listing_entry(listing, i as int);
                }
                return Some(i);
            }
            i = i + 1;
        }
        assert(!self@.contains_key(key.key())) by {
            if self@.contains_key(key.key()) {
                assert(is_entry(listing, key.key(), stamp(listing, key.key())));
            }
        }
        None
    }

    /// Takes out the entry at a place.
    fn remove_at(&mut self, at: usize)
        requires
            old(self).wf(),
            at < old(self).listing().len(),
        ensures
            final(self).wf(),
            final(self).listing() == without_key(
                old(self).listing(),
                old(self).listing()[at as int].0,
            ),
            final(self)@ == old(self)@.remove(old(self).listing()[at as int].0),
            final(self).same_counters(old(self)),
    {
        let ghost before = self.listing();
        self.entries.remove(at);
        proof {
            assert(self.listing() =~= before.remove(at as int));
            lemma_remove_is_without(before, at as int);
            lemma_without_key(before, before[at as int].0);
        }
    }

    /// Takes out the entry of a key, if there is one.
    fn remove_key(&mut self, key: &CacheKey)
        requires
            old(self).wf(),
        ensures
            final(self).wf(),
            final(self).listing() == without_key(old(self).listing(), key.key()),
            final(self)@ == old(self)@.remove(key.key()),
            final(self).same_counters(old(self)),
    {
        match self.position(key) {
            Some(at) => {
                self.remove_at(at);
            },
            None => {
                proof {
                    let listing = self.listing();
                    let pred = other_than(key.key());
                    assert forall|i: int| 0 <= i < listing.len() implies pred(
                        #[trigger] listing[i],
                    ) by {
                        assert(is_entry(listing, listing[i].0, i));
                    }
                    lemma_filter_keeps_all(listing, pred);
                    assert(self@ =~= self@.remove(key.key()));
                }
            },
        }
    }

    /// Puts an entry into the cache as the newest, in place of an earlier one for
    /// its key.
    fn put(&mut self, key: CacheKey, entry: CachedLookup)
        requires
            old(self).wf(),
        ensures
            final(self).listing() == without_key(old(self).listing(), key.key()).push(
                (key.key(), entry),
            ),
            final(self).same_counters(old(self)),
    {
        self.remove_key(&key);
        let ghost before = self.listing();
        let ghost view = key.key();
        self.entries.push((key, entry));
        assert(self.listing() =~= before.push((view, entry)));
    }

    /// Drops all entries but those that are to be kept.
    fn retain(&mut self, keep: &Keep)
        ensures
            final(self).listing() == old(self).listing().filter(keep.kept()),
            final(self).same_counters(old(self)),
    {
        let ghost pred = keep.kept();
        let ghost before = self.listing();
        let mut all: Vec<(CacheKey, CachedLookup)> = Vec::new();
        std::mem::swap(&mut all, &mut self.entries);
        let ghost items = all@;
        let mut kept: Vec<(CacheKey, CachedLookup)> = Vec::new();
        proof {
            reveal(Seq::filter);
            assert(listing_of(kept@) =~= before.take(0).filter(pred));
        }
        for entry in it: all.into_iter()
            invariant
                it.seq() == items,
                before == listing_of(items),
                pred == keep.kept(),
                listing_of(kept@) == before.take(it.index() as int).filter(pred),
        {
            proof {
                reveal(Seq::filter);
                let i = it.index() as int;
                assert(entry == items[i]);
                assert(before.take(i + 1).drop_last() =~= before.take(i));
                assert(before.take(i + 1).last() == (entry.0.key(), entry.1));
            }
            let ghost old_kept = kept@;
            if keep.test(&entry.0, &entry.1) {
                kept.push(entry);
                assert(listing_of(kept@) =~= listing_of(old_kept).push((entry.0.key(), entry.1)));
            }
        }
        assert(before.take(items.len() as int) =~= before);
        self.entries = kept;
    }

    /// Makes room for another entry: what has expired goes first, and then the
    /// oldest quarter.
    fn maybe_evict(&mut self, now: u64)
        requires
            old(self).wf(),
        ensures
            final(self).wf(),
            final(self).listing() == evicted(old(self).listing(), now),
            final(self).listing().len() < MAX_CACHE_ENTRIES,
            live(old(self).listing(), now).len() == MAX_CACHE_ENTRIES
                ==> final(self).listing().len() == MAX_CACHE_ENTRIES - MAX_CACHE_ENTRIES / 4,
            forall|d: KeyView, k: KeyView|
                old(self)@.contains_key(d) && now < old(self)@[d].deadline()
                    && !(#[trigger] final(self)@.contains_key(d)) && (
                #[trigger] final(self)@.contains_key(k)) ==> stamp(old(self).listing(), d) < stamp(
                    old(self).listing(),
                    k,
                ),
            final(self).same_counters(old(self)),
    {
        let ghost before = self.listing();
        proof {
            lemma_evicted(before, now);
            lemma_live(before, now);
            assert forall|d: KeyView, k: KeyView|
                listing_map(before).contains_key(d) && now < listing_map(before)[d].deadline() && !(
                #[trigger] listing_map(evicted(before, now)).contains_key(d)) && (
                #[trigger] listing_map(evicted(before, now)).contains_key(k)) implies stamp(
                before,
                d,
            ) < stamp(before, k) by {
                lemma_oldest_go_first(before, now, d, k);
            }
        }
        if self.entries.len() >= MAX_CACHE_ENTRIES {
            let keep = Keep::Live(now);
            self.retain(&keep);
            let ghost rest = self.listing();
            assert(rest == live(before, now));
            if self.entries.len() >= MAX_CACHE_ENTRIES {
                let to_remove: usize = self.entries.len() / 4;
                self.entries = self.entries.split_off(to_remove);
                assert(self.listing() =~= rest.skip(to_remove as int));
            }
        }
        assert(self.listing() == evicted(before, now));
    }

    /// Looks a path up at the given time.
    pub fn lookup(&mut self, namespace: SchemeNamespace, scheme: &str, path: &str, now: u64) -> (found:
        Option<CachedLookup>)
        requires
            old(self).wf(),
        ensures
            final(self).wf(),
            found == lookup_result(old(self)@, key_of(namespace, scheme, path), now),
            final(self).listing() == after_lookup(
                old(self).listing(),
                key_of(namespace, scheme, path),
                now,
            ),
            final(self)@ == map_after_lookup(old(self)@, key_of(namespace, scheme, path), now),
            found is Some ==> old(self)@.contains_key((namespace.id, scheme@, path@)) && found
                == Some(old(self)@[(namespace.id, scheme@, path@)]),
            found is None && old(self)@.contains_key((namespace.id, scheme@, path@))
                ==> !final(self)@.contains_key((namespace.id, scheme@, path@)),
            final(self).hit_count() == (if found is Some {
                counter::counted_up(old(self).hit_count())
            } else {
                old(self).hit_count()
            }),
            final(self).miss_count() == (if found is Some {
                old(self).miss_count()
            } else {
                counter::counted_up(old(self).miss_count())
            }),
            final(self).negative_hit_count() == (if found matches Some(
                CachedLookup::NotFound { .. },
            ) {
                counter::counted_up(old(self).negative_hit_count())
            } else {
                old(self).negative_hit_count()
            }),
    {
        let key = CacheKey::new(namespace, scheme, path);
        match self.position(&key) {
            Some(at) => {
                let entry: CachedLookup = self.entries[at].1;
                if entry.is_expired(now) {
                    self.remove_at(at);
                    self.misses = self.misses.wrapping_add(1);
                    None
                } else {
                    self.hits = self.hits.wrapping_add(1);
                    if let CachedLookup::NotFound { .. } = entry {
                        self.negative_hits = self.negative_hits.wrapping_add(1);
                    }
                    Some(entry)
                }
            },
            None => {
                self.misses = self.misses.wrapping_add(1);
                None
            },
        }
    }

    /// Remembers that a path does not exist. `evict_time` is the time at which
    /// room is made, if there is none, and `now` the time from which the entry
    /// counts.
    pub fn insert_negative(
        &mut self,
        namespace: SchemeNamespace,
        scheme: &str,
        path: &str,
        evict_time: u64,
        now: u64,
    )
        requires
            old(self).wf(),
            now + NEGATIVE_CACHE_TTL_NS <= u64::MAX,
        ensures
            final(self).wf(),
            final(self).listing() == inserted(
                old(self).listing(),
                key_of(namespace, scheme, path),
                CachedLookup::NotFound { expires_at: (now + NEGATIVE_CACHE_TTL_NS) as u64 },
                evict_time,
            ),
            final(self)@ == listing_map(evicted(old(self).listing(), evict_time)).insert(
                key_of(namespace, scheme, path),
                CachedLookup::NotFound { expires_at: (now + NEGATIVE_CACHE_TTL_NS) as u64 },
            ),
            final(self)@.contains_key((namespace.id, scheme@, path@)),
            final(self)@[(namespace.id, scheme@, path@)] == (CachedLookup::NotFound {
                expires_at: (now + 5_000_000_000) as u64,
            }),
            final(self).same_counters(old(self)),
    {
        let entry = CachedLookup::NotFound { expires_at: now + NEGATIVE_CACHE_TTL_NS };
        proof {
            lemma_inserted(self.listing(), key_of(namespace, scheme, path), entry, evict_time);
        }
        self.maybe_evict(evict_time);
        let key = CacheKey::new(namespace, scheme, path);
        self.put(key, entry);
    }

    /// Remembers the node that a path leads to. `evict_time` is the time at which
    /// room is made, if there is none, and `now` the time from which the entry
    /// counts.
    pub fn insert_found(
        &mut self,
        namespace: SchemeNamespace,
        scheme: &str,
        path: &str,
        node_id: u64,
        evict_time: u64,
        now: u64,
    )
        requires
            old(self).wf(),
            now + POSITIVE_CACHE_TTL_NS <= u64::MAX,
        ensures
            final(self).wf(),
            final(self).listing() == inserted(
                old(self).listing(),
                key_of(namespace, scheme, path),
                CachedLookup::Found { node_id, expires_at: (now + POSITIVE_CACHE_TTL_NS) as u64 },
                evict_time,
            ),
            final(self)@ == listing_map(evicted(old(self).listing(), evict_time)).insert(
                key_of(namespace, scheme, path),
                CachedLookup::Found { node_id, expires_at: (now + POSITIVE_CACHE_TTL_NS) as u64 },
            ),
            final(self)@.contains_key((namespace.id, scheme@, path@)),
            final(self)@[(namespace.id, scheme@, path@)] == (CachedLookup::Found {
                node_id,
                expires_at: (now + 30_000_000_000) as u64,
            }),
            final(self).same_counters(old(self)),
    {
        let entry = CachedLookup::Found { node_id, expires_at: now + POSITIVE_CACHE_TTL_NS };
        proof {
            lemma_inserted(self.listing(), key_of(namespace, scheme, path), entry, evict_time);
        }
        self.maybe_evict(evict_time);
        let key = CacheKey::new(namespace, scheme, path);
        self.put(key, entry);
    }

    /// Forgets a path, because it was created, deleted or renamed.
    pub fn invalidate(&mut self, namespace: SchemeNamespace, scheme: &str, path: &str)
        requires
            old(self).wf(),
        ensures
            final(self).wf(),
            final(self).listing() == without_key(
                old(self).listing(),
                key_of(namespace, scheme, path),
            ),
            final(self)@ == old(self)@.remove(key_of(namespace, scheme, path)),
            final(self)@ == old(self)@.remove((namespace.id, scheme@, path@)),
            final(self).same_counters(old(self)),
    {
        let key = CacheKey::new(namespace, scheme, path);
        self.remove_key(&key);
    }

    /// Forgets all paths of a scheme, because its file system is gone.
    pub fn invalidate_scheme(&mut self, namespace: SchemeNamespace, scheme: &str)
        requires
            old(self).wf(),
        ensures
            final(self).wf(),
            final(self).listing() == scheme_forgotten(old(self).listing(), namespace.id, scheme@),
            final(self)@ == without_scheme(old(self)@, namespace.id, scheme@),
            forall|path: Seq<char>|
                !#[trigger] final(self)@.contains_key((namespace.id, scheme@, path)),
            final(self).same_counters(old(self)),
    {
        let ghost before = self.listing();
        let keep = Keep::OtherSchemes(namespace.id, scheme);
        self.retain(&keep);
        proof {
            lemma_filter_map(
                before,
                outside_scheme(namespace.id, scheme@),
                without_scheme(listing_map(before), namespace.id, scheme@),
            );
        }
    }

    /// Forgets all paths of a scheme that start with `prefix`, because of what
    /// happened to a directory.
    pub fn invalidate_prefix(&mut self, namespace: SchemeNamespace, scheme: &str, prefix: &str)
        requires
            old(self).wf(),
        ensures
            final(self).wf(),
            final(self).listing() == prefix_forgotten(
                old(self).listing(),
                namespace.id,
                scheme@,
                prefix@,
            ),
            final(self)@ == without_prefix(old(self)@, namespace.id, scheme@, prefix@),
            forall|path: Seq<char>|
                prefix@.is_prefix_of(path) ==> !#[trigger] final(self)@.contains_key(
                    (namespace.id, scheme@, path),
                ),
            final(self).same_counters(old(self)),
    {
        let ghost before = self.listing();
        let keep = Keep::OtherPaths(namespace.id, scheme, prefix);
        self.retain(&keep);
        proof {
            lemma_filter_map(
                before,
                outside_prefix(namespace.id, scheme@, prefix@),
                without_prefix(listing_map(before), namespace.id, scheme@, prefix@),
            );
        }
    }

    /// The counters and the number of entries.
    pub fn stats(&self) -> (stats: (u64, u64, u64, usize))
        requires
            self.wf(),
        ensures
            stats.0 == self.hit_count(),
            stats.1 == self.miss_count(),
            stats.2 == self.negative_hit_count(),
            stats.3 == self@.dom().len(),
    {
        proof {
            lemma_listing_size(self.listing());
        }
        (self.hits, self.misses, self.negative_hits, self.entries.len())
    }
}

/// A point in time, since some start.
#[derive(Clone, Copy, Debug, PartialEq, Eq, Structural)]
pub struct TimeSpec {
    /// Seconds.
    pub tv_sec: i64,
    /// Nanoseconds of the last second.
    pub tv_nsec: i32,
}

/// The time in nanoseconds.
pub fn current_time_ns(monotonic: &TimeSpec) -> (now: u64)
    requires
        (monotonic.tv_sec as u64) * 1_000_000_000 + (monotonic.tv_nsec as u64) <= u64::MAX,
    ensures
        now == (monotonic.tv_sec as u64) * 1_000_000_000 + (monotonic.tv_nsec as u64),
{
    monotonic.tv_sec as u64 * 1_000_000_000 + monotonic.tv_nsec as u64
}

/// Looks a path up in the shared cache.
pub fn cache_lookup(
    cache: &mut VfsCache,
    namespace: SchemeNamespace,
    scheme: &str,
    path: &str,
    now: u64,
) -> (found: Option<CachedLookup>)
    requires
        old(cache).wf(),
    ensures
        final(cache).wf(),
        found == lookup_result(old(cache)@, key_of(namespace, scheme, path), now),
        final(cache).listing() == after_lookup(
            old(cache).listing(),
            key_of(namespace, scheme, path),
            now,
        ),
        final(cache)@ == map_after_lookup(old(cache)@, key_of(namespace, scheme, path), now),
        final(cache).hit_count() == (if found is Some {
            counter::counted_up(old(cache).hit_count())
        } else {
            old(cache).hit_count()
        }),
        final(cache).miss_count() == (if found is Some {
            old(cache).miss_count()
        } else {
            counter::counted_up(old(cache).miss_count())
        }),
        final(cache).negative_hit_count() == (if found matches Some(CachedLookup::NotFound { .. }) {
            counter::counted_up(old(cache).negative_hit_count())
        } else {
            old(cache).negative_hit_count()
        }),
{
    cache.lookup(namespace, scheme, path, now)
}

/// Remembers in the shared cache that a path does not exist.
pub fn cache_insert_negative(
    cache: &mut VfsCache,
    namespace: SchemeNamespace,
    scheme: &str,
    path: &str,
    evict_time: u64,
    now: u64,
)
    requires
        old(cache).wf(),
        now + NEGATIVE_CACHE_TTL_NS <= u64::MAX,
    ensures
        final(cache).wf(),
        final(cache).listing() == inserted(
            old(cache).listing(),
            key_of(namespace, scheme, path),
            CachedLookup::NotFound { expires_at: (now + NEGATIVE_CACHE_TTL_NS) as u64 },
            evict_time,
        ),
        final(cache)@ == listing_map(evicted(old(cache).listing(), evict_time)).insert(
            key_of(namespace, scheme, path),
            CachedLookup::NotFound { expires_at: (now + NEGATIVE_CACHE_TTL_NS) as u64 },
        ),
        final(cache).same_counters(old(cache)),
{
    cache.insert_negative(namespace, scheme, path, evict_time, now);
}

/// Remembers in the shared cache the node that a path leads to.
pub fn cache_insert_found(
    cache: &mut VfsCache,
    namespace: SchemeNamespace,
    scheme: &str,
    path: &str,
    node_id: u64,
    evict_time: u64,
    now: u64,
)
    requires
        old(cache).wf(),
        now + POSITIVE_CACHE_TTL_NS <= u64::MAX,
    ensures
        final(cache).wf(),
        final(cache).listing() == inserted(
            old(cache).listing(),
            key_of(namespace, scheme, path),
            CachedLookup::Found { node_id, expires_at: (now + POSITIVE_CACHE_TTL_NS) as u64 },
            evict_time,
        ),
        final(cache)@ == listing_map(evicted(old(cache).listing(), evict_time)).insert(
            key_of(namespace, scheme, path),
            CachedLookup::Found { node_id, expires_at: (now + POSITIVE_CACHE_TTL_NS) as u64 },
        ),
        final(cache).same_counters(old(cache)),
{
    cache.insert_found(namespace, scheme, path, node_id, evict_time, now);
}

/// Forgets a path in the shared cache.
pub fn cache_invalidate(cache: &mut VfsCache, namespace: SchemeNamespace, scheme: &str, path: &str)
    requires
        old(cache).wf(),
    ensures
        final(cache).wf(),
        final(cache).listing() == without_key(
            old(cache).listing(),
            key_of(namespace, scheme, path),
        ),
        final(cache)@ == old(cache)@.remove(key_of(namespace, scheme, path)),
        final(cache).same_counters(old(cache)),
{
    cache.invalidate(namespace, scheme, path);
}

/// Forgets all paths of a scheme in the shared cache.
pub fn cache_invalidate_scheme(cache: &mut VfsCache, namespace: SchemeNamespace, scheme: &str)
    requires
        old(cache).wf(),
    ensures
        final(cache).wf(),
        final(cache).listing() == scheme_forgotten(old(cache).listing(), namespace.id, scheme@),
        final(cache)@ == without_scheme(old(cache)@, namespace.id, scheme@),
        final(cache).same_counters(old(cache)),
{
    cache.invalidate_scheme(namespace, scheme);
}

/// Forgets all paths of a scheme that start with `prefix` in the shared cache.
pub fn cache_invalidate_prefix(
    cache: &mut VfsCache,
    namespace: SchemeNamespace,
    scheme: &str,
    prefix: &str,
)
    requires
        old(cache).wf(),
    ensures
        final(cache).wf(),
        final(cache).listing() == prefix_forgotten(
            old(cache).listing(),
            namespace.id,
            scheme@,
            prefix@,
        ),
        final(cache)@ == without_prefix(old(cache)@, namespace.id, scheme@, prefix@),
        final(cache).same_counters(old(cache)),
{
    cache.invalidate_prefix(namespace, scheme, prefix);
}

/// The counters of the shared cache and the number of its entries.
pub fn cache_stats(cache: &VfsCache) -> (stats: (u64, u64, u64, usize))
    requires
        cache.wf(),
    ensures
        stats.0 == cache.hit_count(),
        stats.1 == cache.miss_count(),
        stats.2 == cache.negative_hit_count(),
        stats.3 == cache@.dom().len(),
{
    cache.stats()
}

/// A path that was found is found again until its time has come, and then no
/// more; the same holds of a path that does not exist.
pub proof fn lemma_lookup_after_insert(map: CacheMap, key: KeyView, entry: CachedLookup, now: u64)
    ensures
        now < entry.deadline() ==> lookup_result(map.insert(key, entry), key, now) == Some(entry),
        now >= entry.deadline() ==> lookup_result(map.insert(key, entry), key, now) is None,
{
}

/// Neither inserting nor forgetting a path changes what is found of another.
pub proof fn lemma_other_paths_are_kept(
    map: CacheMap,
    key: KeyView,
    entry: CachedLookup,
    other: KeyView,
    now: u64,
)
    requires
        key != other,
    ensures
        lookup_result(map.insert(key, entry), other, now) == lookup_result(map, other, now),
        lookup_result(map.remove(key), other, now) == lookup_result(map, other, now),
{
}

/// A lookup changes nothing that any lookup at that time or later finds.
pub proof fn lemma_lookup_is_repeatable(
    listing: Listing,
    key: KeyView,
    now: u64,
    other: KeyView,
    later: u64,
)
    requires
        distinct(listing),
        now <= later,
    ensures
        distinct(after_lookup(listing, key, now)),
        lookup_result(listing_map(after_lookup(listing, key, now)), other, later) == lookup_result(
            listing_map(listing),
            other,
            later,
        ),
{
    lemma_without_key(listing, key);
}

/// A path that was forgotten is not found, whichever way it was forgotten.
pub proof fn lemma_lookup_after_invalidate(
    map: CacheMap,
    key: KeyView,
    prefix: Seq<char>,
    now: u64,
)
    ensures
        lookup_result(map.remove(key), key, now) is None,
        lookup_result(without_scheme(map, key.0, key.1), key, now) is None,
        prefix.is_prefix_of(key.2) ==> lookup_result(
            without_prefix(map, key.0, key.1, prefix),
            key,
            now,
        ) is None,
{
}

/// Forgetting a scheme is forgetting all its paths: every path starts with the
/// empty one.
pub proof fn lemma_empty_prefix_is_scheme(map: CacheMap, namespace: usize, scheme: Seq<char>)
    ensures
        without_prefix(map, namespace, scheme, Seq::empty()) == without_scheme(
            map,
            namespace,
            scheme,
        ),
{
    assert forall|path: Seq<char>| Seq::<char>::empty().is_prefix_of(path) by {
        assert(Seq::<char>::empty() =~= path.subrange(0, 0));
    }
    assert(without_prefix(map, namespace, scheme, Seq::empty()) =~= without_scheme(
        map,
        namespace,
        scheme,
    ));
}

/// Making room drops entries and adds none, and drops none while there is room.
pub proof fn lemma_eviction_only_drops(listing: Listing, now: u64, key: KeyView)
    requires
        distinct(listing),
        listing.len() <= MAX_CACHE_ENTRIES,
    ensures
        listing_map(evicted(listing, now)).contains_key(key) ==> listing_map(listing).contains_key(
            key,
        ) && listing_map(evicted(listing, now))[key] == listing_map(listing)[key],
        listing.len() < MAX_CACHE_ENTRIES ==> evicted(listing, now) == listing,
{
    let rest = evicted(listing, now);
    if listing.len() >= MAX_CACHE_ENTRIES && listing_map(rest).contains_key(key) {
        lemma_evicted(listing, now);
        let survivors = live(listing, now);
        let i = stamp(rest, key);
        assert(is_entry(rest, key, i));
        lemma_listing_entry(rest, i);
        assert(survivors.contains(rest[i])) by {
            if survivors.len() >= MAX_CACHE_ENTRIES {
                assert(rest[i] == survivors[i + survivors.len() as int / 4]);
            }
        }
        listing.lemma_filter_contains_rev(
        not_expired(now),
            rest[i],
        );
        let k = choose|k: int| 0 <= k < listing.len() && listing[k] == rest[i];
        lemma_listing_entry(listing, k);
    }
}

/// Where an entry that a filter keeps stands behind it.
proof fn lemma_kept_at(
    listing: Listing,
    pred: Test,
    at: int,
) -> (i: int)
    requires
        0 <= at < listing.len(),
        pred(listing[at]),
    ensures
        0 <= i < listing.filter(pred).len(),
        listing.filter(pred)[i] == listing[at],
{
    listing.lemma_filter_contains(pred, at);
    choose|i: int|
        0 <= i < listing.filter(pred).len() && listing.filter(pred)[i] == listing[at]
}

/// The oldest go first: an entry that has not expired is dropped only if it was
/// put in before every entry that is kept.
pub proof fn lemma_oldest_go_first(listing: Listing, now: u64, dropped: KeyView, kept: KeyView)
    requires
        distinct(listing),
        listing.len() <= MAX_CACHE_ENTRIES,
        listing_map(listing).contains_key(dropped),
        now < listing_map(listing)[dropped].deadline(),
        !listing_map(evicted(listing, now)).contains_key(dropped),
        listing_map(evicted(listing, now)).contains_key(kept),
    ensures
        stamp(listing, dropped) < stamp(listing, kept),
{
    let pred = not_expired(now);
    let survivors = live(listing, now);
    let rest = evicted(listing, now);
    let d = stamp(listing, dropped);
    assert(is_entry(listing, dropped, d));
    lemma_listing_entry(listing, d);
    let e = stamp(rest, kept);
    assert(is_entry(rest, kept, e));
    if listing.len() < MAX_CACHE_ENTRIES {
        assert(is_entry(rest, dropped, d));
    } else {
        let i = lemma_kept_at(listing, pred, d);
        assert(survivors[i].0 == dropped);
        if survivors.len() < MAX_CACHE_ENTRIES {
            assert(is_entry(rest, dropped, i));
        } else {
            let q = survivors.len() as int / 4;
            if i >= q {
                assert(rest[i - q] == survivors[i]);
                assert(is_entry(rest, dropped, i - q));
            }
            assert(rest[e] == survivors[e + q]);
            let (od, ok) = lemma_filter_order(listing, pred, i, e + q);
            lemma_listing_entry(listing, od);
            lemma_listing_entry(listing, ok);
        }
    }
}

/// A full cache in which nothing has expired loses a quarter of its entries.
pub proof fn lemma_full_cache_loses_a_quarter(listing: Listing, now: u64)
    requires
        listing.len() == MAX_CACHE_ENTRIES,
        forall|i: int| 0 <= i < listing.len() ==> now < (#[trigger] listing[i]).1.deadline(),
    ensures
        evicted(listing, now) == listing.skip(MAX_CACHE_ENTRIES as int / 4),
        evicted(listing, now).len() == 3072,
{
    lemma_filter_keeps_all(
        listing,
        not_expired(now),
    );
}

/// An insertion makes its entry the newest, and all others older.
pub proof fn lemma_inserted_is_newest(
    listing: Listing,
    key: KeyView,
    entry: CachedLookup,
    evict_time: u64,
    other: KeyView,
)
    requires
        distinct(listing),
        listing.len() <= MAX_CACHE_ENTRIES,
        other != key,
        listing_map(inserted(listing, key, entry, evict_time)).contains_key(other),
    ensures
        stamp(inserted(listing, key, entry, evict_time), other) < stamp(
            inserted(listing, key, entry, evict_time),
            key,
        ),
{
    let after = inserted(listing, key, entry, evict_time);
    lemma_inserted(listing, key, entry, evict_time);
    assert(is_entry(after, other, stamp(after, other)));
    lemma_listing_entry(after, after.len() - 1);
}

/// A key stands for one namespace, one scheme and one path.
pub proof fn lemma_keys_are_injective(
    one: (SchemeNamespace, &str, &str),
    other: (SchemeNamespace, &str, &str),
)
    ensures
        key_of(one.0, one.1, one.2) == key_of(other.0, other.1, other.2) <==> one.0.id == other.0.id
            && one.1@ == other.1@ && one.2@ == other.2@,
        key_of(one.0, one.1, one.2).0 == one.0.id,
        key_of(one.0, one.1, one.2).1 == one.1@,
        key_of(one.0, one.1, one.2).2 == one.2@,
{
}

/// Behind one insertion into a new cache, a lookup finds something only in the
/// namespace and the scheme and under the path of the insertion, and there until
/// the time of the entry has come.
pub proof fn lemma_only_what_was_put_in_is_found(
    put: (SchemeNamespace, &str, &str),
    asked: (SchemeNamespace, &str, &str),
    entry: CachedLookup,
    evict_time: u64,
    now: u64,
)
    ensures
        ({
            let listing = inserted(
                Seq::empty(),
                key_of(put.0, put.1, put.2),
                entry,
                evict_time,
            );
            let found = lookup_result(
                listing_map(listing),
                key_of(asked.0, asked.1, asked.2),
                now,
            );
            let same = put.0.id == asked.0.id && put.1@ == asked.1@ && put.2@ == asked.2@;
            let expires_at = match entry {
                CachedLookup::NotFound { expires_at } => expires_at,
                CachedLookup::Found { node_id, expires_at } => expires_at,
            };
            &&& same && now < expires_at ==> found == Some(entry)
            &&& !same || now >= expires_at ==> found is None
        }),
{
    let empty: Listing = Seq::empty();
    let key = key_of(put.0, put.1, put.2);
    lemma_inserted(empty, key, entry, evict_time);
    lemma_keys_are_injective(put, asked);
}

/// Behind the forgetting of a scheme, no lookup in that namespace and scheme finds
/// anything, and every other finds what it found before.
pub proof fn lemma_forgotten_scheme_is_empty(
    map: CacheMap,
    namespace: SchemeNamespace,
    scheme: &str,
    asked: (SchemeNamespace, &str, &str),
    now: u64,
)
    ensures
        ({
            let key = key_of(asked.0, asked.1, asked.2);
            let found = lookup_result(without_scheme(map, namespace.id, scheme@), key, now);
            let same = asked.0.id == namespace.id && asked.1@ == scheme@;
            &&& same ==> found is None
            &&& !same ==> found == lookup_result(map, key, now)
        }),
{
    lemma_keys_are_injective(asked, asked);
}

/// Behind the forgetting of a prefix, no lookup in that namespace and scheme of a
/// path that starts with it finds anything, and every other finds what it found
/// before.
pub proof fn lemma_forgotten_prefix_is_empty(
    map: CacheMap,
    namespace: SchemeNamespace,
    scheme: &str,
    prefix: &str,
    asked: (SchemeNamespace, &str, &str),
    now: u64,
)
    ensures
        ({
            let key = key_of(asked.0, asked.1, asked.2);
            let found = lookup_result(
                without_prefix(map, namespace.id, scheme@, prefix@),
                key,
                now,
            );
            let same = asked.0.id == namespace.id && asked.1@ == scheme@ && asked.2@.len()
                >= prefix@.len() && asked.2@.take(prefix@.len() as int) == prefix@;
            &&& same ==> found is None
            &&& !same ==> found == lookup_result(map, key, now)
        }),
{
    lemma_keys_are_injective(asked, asked);
    if asked.2@.len() >= prefix@.len() {
        assert(asked.2@.take(prefix@.len() as int) =~= asked.2@.subrange(0, prefix@.len() as int));
    }
}

/// Behind the forgetting of a path, a lookup of it finds nothing, and every other
/// finds what it found before.
pub proof fn lemma_forgotten_path_is_gone(
    map: CacheMap,
    gone: (SchemeNamespace, &str, &str),
    asked: (SchemeNamespace, &str, &str),
    now: u64,
)
    ensures
        ({
            let key = key_of(asked.0, asked.1, asked.2);
            let found = lookup_result(map.remove(key_of(gone.0, gone.1, gone.2)), key, now);
            let same = asked.0.id == gone.0.id && asked.1@ == gone.1@ && asked.2@ == gone.2@;
            &&& same ==> found is None
            &&& !same ==> found == lookup_result(map, key, now)
        }),
{
    lemma_keys_are_injective(asked, gone);
}

/// An entry is forgotten at the time that it carries, not before and not after,
/// whether the path exists or not.
pub proof fn lemma_entries_carry_their_time(map: CacheMap, key: KeyView, node_id: u64, time: u64)
    ensures
        (CachedLookup::NotFound { expires_at: time }).deadline() == time,
        (CachedLookup::Found { node_id, expires_at: time }).deadline() == time,
        map.contains_key(key) && map[key] == (CachedLookup::NotFound { expires_at: time })
            ==> forall|now: u64|
            #[trigger] lookup_result(map, key, now) is Some <==> now < time,
        map.contains_key(key) && map[key] == (CachedLookup::Found { node_id, expires_at: time })
            ==> forall|now: u64|
            #[trigger] lookup_result(map, key, now) is Some <==> now < time,
        !map.contains_key(key) ==> forall|now: u64| #[trigger]
            lookup_result(map, key, now) is None,
{
}

/// A lookup drops the entry that it comes to exactly if the time of that has come,
/// and no other.
pub proof fn lemma_lookup_drops_what_expired(
    listing: Listing,
    key: KeyView,
    now: u64,
    other: KeyView,
)
    requires
        distinct(listing),
    ensures
        ({
            let before = listing_map(listing);
            let after = listing_map(after_lookup(listing, key, now));
            &&& after == map_after_lookup(before, key, now)
            &&& !before.contains_key(key) || now < before[key].deadline() ==> after_lookup(
                listing,
                key,
                now,
            ) == listing
            &&& before.contains_key(key) && now >= before[key].deadline() ==> after_lookup(
                listing,
                key,
                now,
            ) == without_key(listing, key)
            &&& after.contains_key(key) <==> before.contains_key(key) && now
                < before[key].deadline()
            &&& after.contains_key(key) ==> after[key] == before[key]
            &&& other != key ==> (after.contains_key(other) <==> before.contains_key(other))
            &&& other != key && before.contains_key(other) ==> after[other] == before[other]
        }),
{
    lemma_without_key(listing, key);
}

/// What is kept is decided entry by entry, and keeps its order: one entry more is
/// one entry more behind the others, or none.
pub proof fn lemma_one_entry_more(
    listing: Listing,
    entry: (KeyView, CachedLookup),
    key: KeyView,
    prefix: Seq<char>,
    now: u64,
)
    ensures
        ({
            let longer = listing.push(entry);
            let expires_at = match entry.1 {
                CachedLookup::NotFound { expires_at } => expires_at,
                CachedLookup::Found { node_id, expires_at } => expires_at,
            };
            let in_scheme = entry.0.0 == key.0 && entry.0.1 == key.1;
            let in_prefix = in_scheme && entry.0.2.len() >= prefix.len() && entry.0.2.take(
                prefix.len() as int,
            ) == prefix;
            &&& without_key(longer, key) == (if entry.0 == key {
                without_key(listing, key)
            } else {
                without_key(listing, key).push(entry)
            })
            &&& live(longer, now) == (if now >= expires_at {
                live(listing, now)
            } else {
                live(listing, now).push(entry)
            })
            &&& scheme_forgotten(longer, key.0, key.1) == (if in_scheme {
                scheme_forgotten(listing, key.0, key.1)
            } else {
                scheme_forgotten(listing, key.0, key.1).push(entry)
            })
            &&& prefix_forgotten(longer, key.0, key.1, prefix) == (if in_prefix {
                prefix_forgotten(listing, key.0, key.1, prefix)
            } else {
                prefix_forgotten(listing, key.0, key.1, prefix).push(entry)
            })
        }),
{
    reveal(Seq::filter);
    assert(listing.push(entry).drop_last() =~= listing);
    let path = entry.0.2;
    if path.len() >= prefix.len() {
        assert(path.take(prefix.len() as int) =~= path.subrange(0, prefix.len() as int));
    }
}

/// Of an empty cache nothing is kept or dropped.
pub proof fn lemma_nothing_of_nothing(key: KeyView, prefix: Seq<char>, now: u64)
    ensures
        ({
            let empty: Listing = Seq::empty();
            &&& without_key(empty, key) == empty
            &&& live(empty, now) == empty
            &&& scheme_forgotten(empty, key.0, key.1) == empty
            &&& prefix_forgotten(empty, key.0, key.1, prefix) == empty
            &&& evicted(empty, now) == empty
        }),
{
    reveal(Seq::filter);
}

/// How room is made: not at all under 4096 entries; by what has expired if that
/// brings them under 4096; and by the oldest quarter of the others if not.
pub proof fn lemma_how_room_is_made(listing: Listing, now: u64)
    requires
        listing.len() <= 4096,
    ensures
        listing.len() < 4096 ==> evicted(listing, now) == listing,
        listing.len() == 4096 && (exists|i: int|
            0 <= i < listing.len() && now >= (#[trigger] listing[i]).1.deadline()) ==> evicted(
            listing,
            now,
        ) == live(listing, now),
        listing.len() == 4096 && (forall|i: int|
            0 <= i < listing.len() ==> now < (#[trigger] listing[i]).1.deadline()) ==> evicted(
            listing,
            now,
        ) == listing.skip(1024),
{
    let pred = not_expired(now);
    if forall|i: int| 0 <= i < listing.len() ==> now < (#[trigger] listing[i]).1.deadline() {
        assert forall|i: int| 0 <= i < listing.len() implies pred(#[trigger] listing[i]) by {}
        lemma_filter_keeps_all(listing, pred);
    } else {
        let at = choose|i: int|
            0 <= i < listing.len() && now >= (#[trigger] listing[i]).1.deadline();
        lemma_filter_drops_one(listing, pred, at);
    }
}

/// A filter that some entry does not satisfy makes a listing shorter.
proof fn lemma_filter_drops_one(listing: Listing, pred: Test, at: int)
    requires
        0 <= at < listing.len(),
        !pred(listing[at]),
    ensures
        listing.filter(pred).len() < listing.len(),
    decreases listing.len(),
{
    reveal(Seq::filter);
    let before = listing.drop_last();
    if at < before.len() {
        lemma_filter_drops_one(before, pred, at);
    } else {
        before.lemma_filter_len(pred);
    }
}

/// An insertion puts its entry last, takes an earlier one for the same key out, and
/// keeps what room was found for otherwise.
pub proof fn lemma_what_an_insertion_does(
    listing: Listing,
    key: KeyView,
    entry: CachedLookup,
    evict_time: u64,
    other: KeyView,
)
    requires
        distinct(listing),
        listing.len() <= 4096,
    ensures
        ({
            let after = inserted(listing, key, entry, evict_time);
            let rest = listing_map(evicted(listing, evict_time));
            &&& after.len() > 0
            &&& after.last() == (key, entry)
            &&& after.drop_last() == without_key(evicted(listing, evict_time), key)
            &&& after.len() <= 4096
            &&& listing_map(after).contains_key(key)
            &&& listing_map(after)[key] == entry
            &&& other != key ==> (listing_map(after).contains_key(other) <==> rest.contains_key(
                other,
            ))
            &&& other != key && rest.contains_key(other) ==> listing_map(after)[other]
                == rest[other]
        }),
{
    lemma_inserted(listing, key, entry, evict_time);
    assert(inserted(listing, key, entry, evict_time).drop_last() =~= without_key(
        evicted(listing, evict_time),
        key,
    ));
}

/// Caches with the same counters have had as many lookups of each kind.
pub proof fn lemma_what_same_counters_are(one: VfsCache, other: VfsCache)
    ensures
        one.same_counters(&other) <==> one.hit_count() == other.hit_count() && one.miss_count()
            == other.miss_count() && one.negative_hit_count() == other.negative_hit_count(),
{
}

} // verus!
