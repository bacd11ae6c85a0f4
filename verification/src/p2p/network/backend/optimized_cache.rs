//! Content that was stored or fetched before, kept at hand.
//!
//! Small content is kept as it is, large content compressed. Each of the two caches
//! lets go of what was used least recently when it is full. Times are nanoseconds on
//! a clock that never goes back.
use crate::bytes;
use crate::crypto;
use crate::crypto::blake3_digest;
use crate::entries::{lookup, with_entry, without_entry, TextMap};
use crate::text;
use crate::text::texts;
use std::num::NonZeroUsize;
use vstd::prelude::*;

verus! {

/// How long accesses are remembered, in nanoseconds.
pub const ANALYSIS_WINDOW: u64 = 86_400_000_000_000;

/// How content is accessed.
#[derive(Clone, Copy, PartialEq, Eq, Structural, Debug)]
pub enum PatternType {
    OneTime,
    Regular,
    Burst,
    Seasonal,
}

/// Content in a cache; in the cache for large content its data is compressed.
#[derive(Debug)]
pub struct CacheEntry {
    pub data: Vec<u8>,
    pub created_at: u64,
    pub last_accessed: u64,
    pub access_count: u64,
    /// The higher, the more it is worth.
    pub priority: u8,
    /// The size of the content before it was compressed.
    pub original_size: usize,
    /// The BLAKE3 digest of the content.
    pub integrity_hash: [u8; 32],
}

/// How much is kept, and what is compressed.
#[derive(Clone, Copy, PartialEq, Eq, Structural, Debug)]
pub struct CacheConfig {
    pub max_data_cache_size: usize,
    pub max_data_entries: usize,
    pub max_compressed_cache_size: usize,
    pub max_compressed_entries: usize,
    pub default_ttl_secs: u64,
    /// The size from which content is compressed.
    pub compression_threshold: usize,
    pub compression_level: i32,
    pub enable_access_prediction: bool,
}

impl Default for CacheConfig {
    fn default() -> (r: CacheConfig)
        ensures
            r == (CacheConfig {
                max_data_cache_size: 268_435_456,
                max_data_entries: 10_000,
                max_compressed_cache_size: 1_073_741_824,
                max_compressed_entries: 50_000,
                default_ttl_secs: 3_600,
                compression_threshold: 65_536,
                compression_level: 6,
                enable_access_prediction: true,
            }),
    {
        CacheConfig {
            max_data_cache_size: 268_435_456,
            max_data_entries: 10_000,
            max_compressed_cache_size: 1_073_741_824,
            max_compressed_entries: 50_000,
            default_ttl_secs: 3_600,
            compression_threshold: 65_536,
            compression_level: 6,
            enable_access_prediction: true,
        }
    }
}

/// How often content was found, and how much is kept.
#[derive(Clone, Copy, PartialEq, Eq, Structural, Debug)]
pub struct CacheStats {
    pub data_cache_hits: u64,
    pub data_cache_misses: u64,
    pub compressed_cache_hits: u64,
    pub compressed_cache_misses: u64,
    pub total_bytes_cached: u64,
    pub evictions_count: u64,
    pub compressions_count: u64,
}

/// The least recently used cache of the `lru` crate.
#[verifier::external_type_specification]
#[verifier::external_body]
#[verifier::reject_recursive_types(K)]
#[verifier::reject_recursive_types(V)]
#[verifier::reject_recursive_types(S)]
pub struct ExLruCache<K, V, S>(lru::LruCache<K, V, S>);

/// The hasher that it uses.
#[verifier::external_type_specification]
#[verifier::external_body]
pub struct ExDefaultHasher(lru::DefaultHasher);

/// What a cache holds, the most recently used first.
pub uninterp spec fn lru_entries(cache: lru::LruCache<String, CacheEntry>) -> Seq<
    (Seq<char>, CacheEntry),
>;

/// How many entries a cache may hold.
pub uninterp spec fn lru_capacity(cache: lru::LruCache<String, CacheEntry>) -> nat;

/// Entries once one was put in front: what was under its key is gone, and what was used
/// least recently if there is no room.
pub open spec fn put_front(
    entries: Seq<(Seq<char>, CacheEntry)>,
    capacity: nat,
    key: Seq<char>,
    value: CacheEntry,
) -> Seq<(Seq<char>, CacheEntry)> {
    seq![(key, value)] + if lookup(entries, key) is Some {
        without_entry(entries, key)
    } else if entries.len() < capacity {
        entries
    } else {
        entries.drop_last()
    }
}

/// Entries once one of them was taken to the front.
pub open spec fn to_front(
    entries: Seq<(Seq<char>, CacheEntry)>,
    key: Seq<char>,
    value: CacheEntry,
) -> Seq<(Seq<char>, CacheEntry)> {
    seq![(key, value)] + without_entry(entries, key)
}

/// `LruCache::new` makes an empty cache that may hold so many entries. It allocates a table for
/// all of them, whose size must not overflow.
#[verifier::external_body]
fn lru_new(capacity: usize) -> (r: lru::LruCache<String, CacheEntry>)
    requires
        0 < capacity <= usize::MAX / 256,
    ensures
        lru_entries(r) == Seq::<(Seq<char>, CacheEntry)>::empty(),
        lru_capacity(r) == capacity,
{
    lru::LruCache::new(NonZeroUsize::new(capacity).unwrap())
}

/// `LruCache::put` puts an entry in front. It replaces the entry with the same key; without
/// one, the entry that was used least recently gives way if the cache is full.
#[verifier::external_body]
fn lru_put(cache: &mut lru::LruCache<String, CacheEntry>, key: String, value: CacheEntry)
    ensures
        lru_entries(*final(cache)) == put_front(
            lru_entries(*old(cache)),
            lru_capacity(*old(cache)),
            key@,
            value,
        ),
        lru_capacity(*final(cache)) == lru_capacity(*old(cache)),
{
    cache.put(key, value);
}

/// `LruCache::get_mut` takes the entry with a key to the front and lends it.
#[verifier::external_body]
fn lru_get_mut<'a>(cache: &'a mut lru::LruCache<String, CacheEntry>, key: &str) -> (r: Option<
    &'a mut CacheEntry,
>)
    ensures
        lru_capacity(*final(cache)) == lru_capacity(*old(cache)),
        match r {
            Some(entry) => lookup(lru_entries(*old(cache)), key@) == Some(*entry) && lru_entries(
                *final(cache),
            ) == to_front(lru_entries(*old(cache)), key@, *final(entry)),
            None => lookup(lru_entries(*old(cache)), key@) is None && lru_entries(*final(cache))
                == lru_entries(*old(cache)),
        },
{
    cache.get_mut(key)
}

/// `LruCache::peek` lends the entry with a key; the order stays as it is.
#[verifier::external_body]
fn lru_peek<'a>(cache: &'a lru::LruCache<String, CacheEntry>, key: &str) -> (r: Option<
    &'a CacheEntry,
>)
    ensures
        match lookup(lru_entries(*cache), key@) {
            Some(entry) => r == Some(&entry),
            None => r is None,
        },
{
    cache.peek(key)
}

/// `LruCache::pop` removes the entry with a key and gives it back.
#[verifier::external_body]
fn lru_pop(cache: &mut lru::LruCache<String, CacheEntry>, key: &str) -> (r: Option<CacheEntry>)
    ensures
        r == lookup(lru_entries(*old(cache)), key@),
        lru_entries(*final(cache)) == without_entry(lru_entries(*old(cache)), key@),
        lru_capacity(*final(cache)) == lru_capacity(*old(cache)),
{
    cache.pop(key)
}

/// `LruCache::iter` walks the entries, the most recently used first; their keys are given.
#[verifier::external_body]
fn lru_keys(cache: &lru::LruCache<String, CacheEntry>) -> (r: Vec<String>)
    ensures
        texts(r@) == lru_entries(*cache).map_values(|e: (Seq<char>, CacheEntry)| e.0),
{
    cache.iter().map(|(key, _)| key.clone()).collect()
}

/// `LruCache::clear` removes every entry.
#[verifier::external_body]
fn lru_clear(cache: &mut lru::LruCache<String, CacheEntry>)
    ensures
        lru_entries(*final(cache)) == Seq::<(Seq<char>, CacheEntry)>::empty(),
        lru_capacity(*final(cache)) == lru_capacity(*old(cache)),
{
    cache.clear()
}

/// Content in zstd's compressed form, at a level, if zstd can compress it.
pub uninterp spec fn zstd_compressed(data: Seq<u8>, level: i32) -> Option<Seq<u8>>;

/// The content that data in zstd's compressed form holds, if it is in that form.
pub uninterp spec fn zstd_contents(data: Seq<u8>) -> Option<Seq<u8>>;

/// `zstd::bulk::compress` compresses content at a level; the compressed form holds the
/// content. The compressed form, and whether there is one, depends on the content and the
/// level alone, provided that there is memory for it. Nothing is said of the words of the
/// error.
#[verifier::external_body]
fn zstd_compress(data: &[u8], level: i32) -> (r: Result<Vec<u8>, String>)
    ensures
        match r {
            Ok(frame) => zstd_compressed(data@, level) == Some(frame@) && zstd_contents(frame@)
                == Some(data@),
            Err(_) => zstd_compressed(data@, level) is None,
        },
{
    zstd::bulk::compress(data, level).map_err(|e| e.to_string())
}

/// `zstd::bulk::decompress` gives the content that a compressed form holds, if it is no
/// larger than a capacity, and fails where there is none. Of larger content it is only said
/// that nothing else is given; nothing is said of the words of the error.
#[verifier::external_body]
fn zstd_decompress(data: &[u8], capacity: usize) -> (r: Result<Vec<u8>, String>)
    requires
        capacity <= isize::MAX,
    ensures
        match zstd_contents(data@) {
            Some(content) => (content.len() <= capacity ==> r is Ok) && (r is Ok ==> r->Ok_0@
                == content),
            None => r is Err,
        },
{
    zstd::bulk::decompress(data, capacity).map_err(|e| e.to_string())
}

/// Content that is kept at hand.
pub struct OptimizedCache {
    data_cache: lru::LruCache<String, CacheEntry>,
    compressed_cache: lru::LruCache<String, CacheEntry>,
    access_history: TextMap<Vec<u64>>,
    cache_config: CacheConfig,
    stats: CacheStats,
}

/// The model of what is kept.
#[verifier::ext_equal]
pub struct CacheModel {
    pub data: Seq<(Seq<char>, CacheEntry)>,
    pub data_capacity: nat,
    pub compressed: Seq<(Seq<char>, CacheEntry)>,
    pub compressed_capacity: nat,
    pub history: Seq<(Seq<char>, Vec<u64>)>,
    pub config: CacheConfig,
    pub stats: CacheStats,
}

impl View for OptimizedCache {
    type V = CacheModel;

    closed spec fn view(&self) -> CacheModel {
        CacheModel {
            data: lru_entries(self.data_cache),
            data_capacity: lru_capacity(self.data_cache),
            compressed: lru_entries(self.compressed_cache),
            compressed_capacity: lru_capacity(self.compressed_cache),
            history: self.access_history@,
            config: self.cache_config,
            stats: self.stats,
        }
    }
}

/// Whether no entry was accessed more often than a number.
pub open spec fn accessed_at_most(entries: Seq<(Seq<char>, CacheEntry)>, most: int) -> bool {
    forall|i: int| 0 <= i < entries.len() ==> (#[trigger] entries[i]).1.access_count <= most
}

/// Whether a cache is in order: neither part holds more than it may, and nothing was accessed
/// more often than content was found, but for when it was stored.
pub open spec fn well_formed(m: CacheModel) -> bool {
    &&& 0 < m.data_capacity
    &&& 0 < m.compressed_capacity
    &&& m.data.len() <= m.data_capacity
    &&& m.compressed.len() <= m.compressed_capacity
    &&& accessed_at_most(m.data, m.stats.data_cache_hits + 1)
}

/// What was looked up or is left was accessed no more often than anything.
proof fn lemma_accessed_at_most(
    entries: Seq<(Seq<char>, CacheEntry)>,
    key: Seq<char>,
    most: int,
)
    requires
        accessed_at_most(entries, most),
    ensures
        accessed_at_most(without_entry(entries, key), most),
        without_entry(entries, key).len() <= entries.len(),
        lookup(entries, key) matches Some(entry) ==> entry.access_count <= most,
    decreases entries.len(),
{
    if entries.len() > 0 {
        let rest = entries.skip(1);
        assert(accessed_at_most(rest, most)) by {
            assert forall|i: int| 0 <= i < rest.len() implies (#[trigger] rest[i]).1.access_count
                <= most by {
                assert(rest[i] == entries[i + 1]);
            }
        }
        lemma_accessed_at_most(rest, key, most);
        assert(entries[0].1.access_count <= most);
    }
}

/// Putting an entry in front keeps within the room there is.
proof fn lemma_put_front(
    entries: Seq<(Seq<char>, CacheEntry)>,
    capacity: nat,
    key: Seq<char>,
    value: CacheEntry,
    most: int,
)
    requires
        accessed_at_most(entries, most),
        entries.len() <= capacity,
        0 < capacity,
        value.access_count <= most,
    ensures
        accessed_at_most(put_front(entries, capacity, key, value), most),
        put_front(entries, capacity, key, value).len() <= capacity,
{
    lemma_accessed_at_most(entries, key, most);
    lemma_cache_is_bounded(entries, capacity, key, value);
    let after = put_front(entries, capacity, key, value);
    assert forall|i: int| 0 <= i < after.len() implies (#[trigger] after[i]).1.access_count
        <= most by {
        if i > 0 && lookup(entries, key) is Some {
            assert(after[i] == without_entry(entries, key)[i - 1]);
        } else if i > 0 {
            assert(after[i] == entries[i - 1]);
        }
    }
}

/// How many entries a cache is made for: as many as are asked for, or so many if that is none.
pub open spec fn entries_or(asked: usize, otherwise: usize) -> usize {
    if asked == 0 {
        otherwise
    } else {
        asked
    }
}

impl OptimizedCache {
    /// Nothing is kept.
    pub fn new(cache_config: CacheConfig) -> (r: OptimizedCache)
        requires
            cache_config.max_data_entries <= usize::MAX / 256,
            cache_config.max_compressed_entries <= usize::MAX / 256,
        ensures
            well_formed(r@),
            r@ == (CacheModel {
                data: Seq::empty(),
                data_capacity: entries_or(cache_config.max_data_entries, 10_000) as nat,
                compressed: Seq::empty(),
                compressed_capacity: entries_or(
                    cache_config.max_compressed_entries,
                    50_000,
                ) as nat,
                history: Seq::empty(),
                config: cache_config,
                stats: CacheStats {
                    data_cache_hits: 0,
                    data_cache_misses: 0,
                    compressed_cache_hits: 0,
                    compressed_cache_misses: 0,
                    total_bytes_cached: 0,
                    evictions_count: 0,
                    compressions_count: 0,
                },
            }),
    {
        let data_entries: usize = if cache_config.max_data_entries == 0 {
            10_000
        } else {
            cache_config.max_data_entries
        };
        let compressed_entries: usize = if cache_config.max_compressed_entries == 0 {
            50_000
        } else {
            cache_config.max_compressed_entries
        };
        OptimizedCache {
            data_cache: lru_new(data_entries),
            compressed_cache: lru_new(compressed_entries),
            access_history: TextMap::new(),
            cache_config,
            stats: CacheStats {
                data_cache_hits: 0,
                data_cache_misses: 0,
                compressed_cache_hits: 0,
                compressed_cache_misses: 0,
                total_bytes_cached: 0,
                evictions_count: 0,
                compressions_count: 0,
            },
        }
    }
}

/// The times at which content was accessed.
pub open spec fn accesses(history: Seq<(Seq<char>, Vec<u64>)>, cid: Seq<char>) -> Seq<u64> {
    match lookup(history, cid) {
        Some(times) => times@,
        None => Seq::empty(),
    }
}

/// The times that are within the window of analysis.
pub open spec fn recent(times: Seq<u64>, now: u64) -> Seq<u64> {
    if now >= ANALYSIS_WINDOW {
        times.filter(|t: u64| t > now - ANALYSIS_WINDOW)
    } else {
        times
    }
}

/// Whether the history is the former one with one more access to content.
pub open spec fn history_after(
    before: Seq<(Seq<char>, Vec<u64>)>,
    cid: Seq<char>,
    now: u64,
    after: Seq<(Seq<char>, Vec<u64>)>,
) -> bool {
    exists|times: Vec<u64>|
        times@ == recent(accesses(before, cid).push(now), now) && after == #[trigger] with_entry(
            before,
            cid,
            times,
        )
}

/// Whether the history is as an access leaves it: it is kept only if that is enabled.
pub open spec fn history_noted(before: CacheModel, cid: Seq<char>, now: u64, after: CacheModel) -> bool {
    if before.config.enable_access_prediction {
        history_after(before.history, cid, now, after.history)
    } else {
        after.history == before.history
    }
}

/// The content of an entry of the cache for large content, if it can be decompressed.
pub open spec fn unpacked(entry: CacheEntry) -> Option<Seq<u8>> {
    match zstd_contents(entry.data@) {
        Some(content) => if content.len() <= entry.original_size && entry.original_size
            <= isize::MAX {
            Some(content)
        } else {
            None
        },
        None => None,
    }
}

/// The content that is kept under an identifier, if any is.
pub open spec fn kept(m: CacheModel, cid: Seq<char>) -> Option<Seq<u8>> {
    match lookup(m.data, cid) {
        Some(entry) => Some(entry.data@),
        None => match lookup(m.compressed, cid) {
            Some(entry) => unpacked(entry),
            None => None,
        },
    }
}

/// An entry once it was accessed.
pub open spec fn accessed(entry: CacheEntry, now: u64) -> CacheEntry {
    CacheEntry {
        last_accessed: now,
        access_count: (entry.access_count + 1) as u64,
        ..entry
    }
}

/// Whether an entry holds content that came in at a time, or was compressed then.
pub open spec fn holds(
    entry: CacheEntry,
    content: Seq<u8>,
    created_at: u64,
    now: u64,
    priority: u8,
    original_size: usize,
) -> bool {
    &&& entry.data@ == content
    &&& entry.created_at == created_at
    &&& entry.last_accessed == now
    &&& entry.access_count == 1
    &&& entry.priority == priority
    &&& entry.original_size == original_size
    &&& entry.integrity_hash@ == blake3_digest(content)
}

/// Whether everything stayed as it is but what is kept, the history and the counts.
pub open spec fn same_frame(before: CacheModel, after: CacheModel) -> bool {
    &&& after.data_capacity == before.data_capacity
    &&& after.compressed_capacity == before.compressed_capacity
    &&& after.config == before.config
}

/// Whether counts can go up by one.
pub open spec fn counts_fit(stats: CacheStats) -> bool {
    &&& stats.data_cache_hits < u64::MAX - 1
    &&& stats.data_cache_misses < u64::MAX
    &&& stats.compressed_cache_hits < u64::MAX
    &&& stats.compressed_cache_misses < u64::MAX
    &&& stats.compressions_count < u64::MAX
}

/// Whether an access found content among what is kept as it is.
pub open spec fn found_plain(
    before: CacheModel,
    cid: Seq<char>,
    now: u64,
    entry: CacheEntry,
    after: CacheModel,
) -> bool {
    &&& after.data == to_front(before.data, cid, accessed(entry, now))
    &&& after.compressed == before.compressed
    &&& after.stats == (CacheStats {
        data_cache_hits: (before.stats.data_cache_hits + 1) as u64,
        ..before.stats
    })
}

/// Whether an access found content among what is compressed: it is kept as it is too, from
/// now on.
pub open spec fn found_compressed(
    before: CacheModel,
    cid: Seq<char>,
    now: u64,
    entry: CacheEntry,
    content: Seq<u8>,
    after: CacheModel,
) -> bool {
    &&& after.compressed == to_front(before.compressed, cid, entry)
    &&& exists|plain: CacheEntry|
        holds(plain, content, entry.created_at, now, 7, entry.original_size) && after.data
            == #[trigger] put_front(before.data, before.data_capacity, cid, plain)
    &&& after.stats == (CacheStats {
        compressed_cache_hits: (before.stats.compressed_cache_hits + 1) as u64,
        ..before.stats
    })
}

/// Whether an access found nothing; what could not be decompressed is kept no more.
pub open spec fn found_nothing(before: CacheModel, cid: Seq<char>, after: CacheModel) -> bool {
    &&& after.data == before.data
    &&& after.compressed == without_entry(before.compressed, cid)
    &&& after.stats == (CacheStats {
        data_cache_misses: (before.stats.data_cache_misses + 1) as u64,
        compressed_cache_misses: (before.stats.compressed_cache_misses + 1) as u64,
        ..before.stats
    })
}

/// How content was stored.
#[derive(Clone, Copy, PartialEq, Eq, Structural, Debug)]
pub enum PutOutcome {
    /// As it is.
    Plain,
    /// Compressed, to so many bytes.
    Compressed(usize),
}

impl OptimizedCache {
    /// Notes an access to content.
    fn update_access_history(&mut self, cid: &str, now: u64)
        ensures
            history_after(old(self)@.history, cid@, now, final(self)@.history),
            final(self)@ == (CacheModel { history: final(self)@.history, ..old(self)@ }),
    {
        let ghost before = self.access_history@;
        let mut times: Vec<u64> = Vec::new();
        match self.access_history.get(cid) {
            Some(list) => {
                let mut i: usize = 0;
                while i < list.len()
                    invariant
                        i <= list@.len(),
                        times@ == list@.take(i as int),
                    decreases list@.len() - i,
                {
                    times.push(list[i]);
                    assert(times@ =~= list@.take(i + 1));
                    i += 1;
                }
                assert(times@ =~= list@);
            },
            None => {
                assert(times@ =~= Seq::<u64>::empty());
            },
        }
        assert(times@ == accesses(before, cid@));
        times.push(now);
        let ghost all = times@;
        if now >= ANALYSIS_WINDOW {
            let cutoff: u64 = now - ANALYSIS_WINDOW;
            let mut left: Vec<u64> = Vec::new();
            let mut i: usize = 0;
            let ghost keep = |t: u64| t > now - ANALYSIS_WINDOW;
            proof {
                reveal(Seq::filter);
                assert(all.take(0) =~= Seq::empty());
            }
            while i < times.len()
                invariant
                    i <= times@.len(),
                    times@ == all,
                    cutoff == now - ANALYSIS_WINDOW,
                    keep == (|t: u64| t > now - ANALYSIS_WINDOW),
                    left@ == all.take(i as int).filter(keep),
                decreases times@.len() - i,
            {
                proof {
                    reveal(Seq::filter);
                    assert(all.take(i + 1).drop_last() =~= all.take(i as int));
                }
                if times[i] > cutoff {
                    left.push(times[i]);
                }
                i += 1;
            }
            assert(all.take(i as int) =~= all);
            times = left;
        }
        let ghost now_times = times;
        self.access_history.insert(text::owned(cid), times);
        assert(now_times@ == recent(accesses(before, cid@).push(now), now));
        assert(self.access_history@ == with_entry(before, cid@, now_times));
    }

    /// Gets content that is kept, as it is or compressed.
    pub fn get(&mut self, cid: &str, now: u64) -> (r: Option<Vec<u8>>)
        requires
            well_formed(old(self)@),
            counts_fit(old(self)@.stats),
        ensures
            well_formed(final(self)@),
            same_frame(old(self)@, final(self)@),
            history_noted(old(self)@, cid@, now, final(self)@),
            match lookup(old(self)@.data, cid@) {
                Some(entry) => r is Some && r->0@ == entry.data@ && found_plain(
                    old(self)@,
                    cid@,
                    now,
                    entry,
                    final(self)@,
                ),
                None => match lookup(old(self)@.compressed, cid@) {
                    Some(entry) => match r {
                        Some(content) => zstd_contents(entry.data@) == Some(content@)
                            && found_compressed(
                            old(self)@,
                            cid@,
                            now,
                            entry,
                            content@,
                            final(self)@,
                        ),
                        None => unpacked(entry) is None && found_nothing(
                            CacheModel {
                                compressed: to_front(old(self)@.compressed, cid@, entry),
                                ..old(self)@
                            },
                            cid@,
                            final(self)@,
                        ),
                    },
                    None => r is None && found_nothing(old(self)@, cid@, final(self)@),
                },
            },
            kept(old(self)@, cid@) matches Some(content) ==> r is Some && r->0@ == content,
    {
        if self.cache_config.enable_access_prediction {
            self.update_access_history(cid, now);
        }
        proof {
            lemma_accessed_at_most(self@.data, cid@, self@.stats.data_cache_hits + 1);
            if lookup(self@.data, cid@) is Some {
                crate::entries::lemma_found_is_removed(self@.data, cid@);
            }
            if lookup(self@.compressed, cid@) is Some {
                crate::entries::lemma_found_is_removed(self@.compressed, cid@);
            }
        }
        match lru_get_mut(&mut self.data_cache, cid) {
            Some(entry) => {
                entry.last_accessed = now;
                entry.access_count = entry.access_count + 1;
                let content: Vec<u8> = bytes::to_vec(entry.data.as_slice());
                self.stats.data_cache_hits = self.stats.data_cache_hits + 1;
                return Some(content);
            },
            None => {},
        }
        let mut packed: Option<(Vec<u8>, usize, u64)> = None;
        match lru_get_mut(&mut self.compressed_cache, cid) {
            Some(entry) => {
                packed = Some(
                    (
                        bytes::to_vec(entry.data.as_slice()),
                        entry.original_size,
                        entry.created_at,
                    ),
                );
            },
            None => {},
        }
        match packed {
            Some((data, original_size, created_at)) => {
                let unpacked_data: Result<Vec<u8>, String> = if original_size <= isize::MAX as usize {
                    zstd_decompress(data.as_slice(), original_size)
                } else {
                    Err(String::new())
                };
                match unpacked_data {
                    Ok(content) => {
                        let plain = CacheEntry {
                            data: bytes::to_vec(content.as_slice()),
                            created_at,
                            last_accessed: now,
                            access_count: 1,
                            priority: 7,
                            original_size,
                            integrity_hash: crypto::blake3(content.as_slice()),
                        };
                        proof {
                            lemma_put_front(
                                self@.data,
                                self@.data_capacity,
                                cid@,
                                plain,
                                self@.stats.data_cache_hits + 1,
                            );
                        }
                        lru_put(&mut self.data_cache, text::owned(cid), plain);
                        self.stats.compressed_cache_hits = self.stats.compressed_cache_hits + 1;
                        return Some(content);
                    },
                    Err(_) => {
                        let _ = lru_pop(&mut self.compressed_cache, cid);
                    },
                }
            },
            None => {
                proof {
                    crate::entries::lemma_absent_stays(self@.compressed, cid@);
                }
            },
        }
        self.stats.data_cache_misses = self.stats.data_cache_misses + 1;
        self.stats.compressed_cache_misses = self.stats.compressed_cache_misses + 1;
        None
    }
}

/// Whether content was stored as it is.
pub open spec fn stored_plain(
    before: CacheModel,
    cid: Seq<char>,
    content: Seq<u8>,
    now: u64,
    after: CacheModel,
) -> bool {
    &&& exists|entry: CacheEntry|
        holds(entry, content, now, now, 5, content.len() as usize) && after.data
            == #[trigger] put_front(before.data, before.data_capacity, cid, entry)
    &&& after.compressed == before.compressed
    &&& after.stats == (CacheStats {
        total_bytes_cached: (before.stats.total_bytes_cached + content.len()) as u64,
        ..before.stats
    })
}

/// Whether content was stored in a compressed form.
pub open spec fn stored_compressed(
    before: CacheModel,
    cid: Seq<char>,
    content: Seq<u8>,
    frame: Seq<u8>,
    now: u64,
    after: CacheModel,
) -> bool {
    &&& exists|entry: CacheEntry|
        entry.data@ == frame && entry.created_at == now && entry.last_accessed == now
            && entry.access_count == 1 && entry.priority == 5 && entry.original_size
            == content.len() && entry.integrity_hash@ == blake3_digest(content)
            && after.compressed == #[trigger] put_front(
            before.compressed,
            before.compressed_capacity,
            cid,
            entry,
        )
    &&& after.data == before.data
    &&& after.stats == (CacheStats {
        compressions_count: (before.stats.compressions_count + 1) as u64,
        total_bytes_cached: (before.stats.total_bytes_cached + content.len()) as u64,
        ..before.stats
    })
}

/// What eviction is decided by, for one content.
#[derive(Debug)]
pub struct Candidate {
    pub cid: String,
    pub last_accessed: u64,
    pub access_count: u64,
    pub priority: u8,
    pub size: usize,
}

/// How many of so many contents are evicted at a time: a fifth, rounded up.
pub open spec fn eviction_count(candidates: nat) -> nat {
    (candidates + 4) / 5
}

/// Entries without some keys.
pub open spec fn without_all(
    entries: Seq<(Seq<char>, CacheEntry)>,
    gone: Seq<Seq<char>>,
) -> Seq<(Seq<char>, CacheEntry)>
    decreases gone.len(),
{
    if gone.len() == 0 {
        entries
    } else {
        without_entry(without_all(entries, gone.drop_last()), gone.last())
    }
}

/// How many bytes removing some keys sets free.
pub open spec fn freed(entries: Seq<(Seq<char>, CacheEntry)>, gone: Seq<Seq<char>>) -> nat
    decreases gone.len(),
{
    if gone.len() == 0 {
        0
    } else {
        freed(entries, gone.drop_last()) + match lookup(
            without_all(entries, gone.drop_last()),
            gone.last(),
        ) {
            Some(entry) => entry.data@.len(),
            None => 0,
        }
    }
}

impl OptimizedCache {
    /// Stores content: from a size on it is compressed, and stored as it is if that fails.
    pub fn put(&mut self, cid: &str, data: Vec<u8>, now: u64) -> (r: PutOutcome)
        requires
            data@.len() <= isize::MAX,
            well_formed(old(self)@),
            counts_fit(old(self)@.stats),
            old(self)@.stats.total_bytes_cached + data@.len() <= u64::MAX,
        ensures
            well_formed(final(self)@),
            same_frame(old(self)@, final(self)@),
            final(self)@.history == old(self)@.history,
            r is Compressed <==> data@.len() >= old(self)@.config.compression_threshold
                && zstd_compressed(data@, old(self)@.config.compression_level) is Some,
            match r {
                PutOutcome::Plain => stored_plain(old(self)@, cid@, data@, now, final(self)@),
                PutOutcome::Compressed(size) => {
                    let frame = zstd_compressed(data@, old(self)@.config.compression_level)->0;
                    &&& size == frame.len()
                    &&& zstd_contents(frame) == Some(data@)
                    &&& stored_compressed(old(self)@, cid@, data@, frame, now, final(self)@)
                },
            },
            r is Plain || lookup(old(self)@.data, cid@) is None ==> kept(final(self)@, cid@)
                == Some(data@),
    {
        let compressed: Result<Vec<u8>, String> = if data.len()
            >= self.cache_config.compression_threshold {
            zstd_compress(data.as_slice(), self.cache_config.compression_level)
        } else {
            Err(text::owned("below the compression threshold"))
        };
        self.store(cid, data, compressed, now)
    }

    /// Stores content, given what compressing it came to: in the compressed form from a size
    /// on, if there is one, and otherwise as it is.
    pub fn store(
        &mut self,
        cid: &str,
        data: Vec<u8>,
        compressed: Result<Vec<u8>, String>,
        now: u64,
    ) -> (r: PutOutcome)
        requires
            data@.len() <= isize::MAX,
            well_formed(old(self)@),
            counts_fit(old(self)@.stats),
            old(self)@.stats.total_bytes_cached + data@.len() <= u64::MAX,
        ensures
            well_formed(final(self)@),
            same_frame(old(self)@, final(self)@),
            final(self)@.history == old(self)@.history,
            if data@.len() >= old(self)@.config.compression_threshold && compressed is Ok {
                let frame = compressed->Ok_0@;
                &&& r is Compressed && r->Compressed_0 == frame.len()
                &&& stored_compressed(old(self)@, cid@, data@, frame, now, final(self)@)
            } else {
                &&& r == PutOutcome::Plain
                &&& stored_plain(old(self)@, cid@, data@, now, final(self)@)
            },
            r is Plain ==> kept(final(self)@, cid@) == Some(data@),
            r is Compressed && lookup(old(self)@.data, cid@) is None && zstd_contents(
                compressed->Ok_0@,
            ) == Some(data@) ==> kept(final(self)@, cid@) == Some(data@),
    {
        let integrity_hash: [u8; 32] = crypto::blake3(data.as_slice());
        let size: usize = data.len();
        if size >= self.cache_config.compression_threshold {
            match compressed {
                Ok(frame) => {
                    let compressed_size: usize = frame.len();
                    let entry = CacheEntry {
                        data: frame,
                        created_at: now,
                        last_accessed: now,
                        access_count: 1,
                        priority: 5,
                        original_size: size,
                        integrity_hash,
                    };
                    proof {
                        lemma_cache_is_bounded(
                            self@.compressed,
                            self@.compressed_capacity,
                            cid@,
                            entry,
                        );
                    }
                    lru_put(&mut self.compressed_cache, text::owned(cid), entry);
                    self.stats.compressions_count = self.stats.compressions_count + 1;
                    self.stats.total_bytes_cached = self.stats.total_bytes_cached + size as u64;
                    assert(self@.compressed == put_front(
                        old(self)@.compressed,
                        old(self)@.compressed_capacity,
                        cid@,
                        entry,
                    ));
                    assert(lookup(self@.compressed, cid@) == Some(entry));
                    return PutOutcome::Compressed(compressed_size);
                },
                Err(_) => {},
            }
        }
        let entry = CacheEntry {
            data,
            created_at: now,
            last_accessed: now,
            access_count: 1,
            priority: 5,
            original_size: size,
            integrity_hash,
        };
        proof {
            lemma_put_front(
                self@.data,
                self@.data_capacity,
                cid@,
                entry,
                self@.stats.data_cache_hits + 1,
            );
        }
        lru_put(&mut self.data_cache, text::owned(cid), entry);
        self.stats.total_bytes_cached = self.stats.total_bytes_cached + size as u64;
        assert(holds(entry, data@, now, now, 5, size));
        assert(self@.data == put_front(
            old(self)@.data,
            old(self)@.data_capacity,
            cid@,
            entry,
        ));
        assert(lookup(self@.data, cid@) == Some(entry));
        PutOutcome::Plain
    }

    /// What is kept as it is, with what eviction is decided by; the most recently used first.
    pub fn eviction_candidates(&self) -> (r: Vec<Candidate>)
        ensures
            r@.len() == self@.data.len(),
            forall|i: int|
                0 <= i < r@.len() ==> {
                    let c = #[trigger] r@[i];
                    &&& c.cid@ == self@.data[i].0
                    &&& lookup(self@.data, c.cid@) matches Some(entry) && c.last_accessed
                        == entry.last_accessed && c.access_count == entry.access_count && c.priority
                        == entry.priority && c.size == entry.data@.len()
                },
    {
        let names: Vec<String> = lru_keys(&self.data_cache);
        let ghost data = self@.data;
        assert(texts(names@) == data.map_values(|e: (Seq<char>, CacheEntry)| e.0));
        assert(names@.len() == texts(names@).len());
        let mut out: Vec<Candidate> = Vec::new();
        let mut i: usize = 0;
        while i < names.len()
            invariant
                i <= names@.len(),
                names@.len() == data.len(),
                data == self@.data,
                texts(names@) == data.map_values(|e: (Seq<char>, CacheEntry)| e.0),
                out@.len() == i,
                forall|j: int|
                    0 <= j < i ==> {
                        let c = #[trigger] out@[j];
                        &&& c.cid@ == data[j].0
                        &&& lookup(data, c.cid@) matches Some(entry) && c.last_accessed
                            == entry.last_accessed && c.access_count == entry.access_count
                            && c.priority == entry.priority && c.size == entry.data@.len()
                    },
            decreases names@.len() - i,
        {
            assert(texts(names@)[i as int] == names@[i as int]@);
            assert(names@[i as int]@ == data[i as int].0);
            proof {
                crate::entries::lemma_key_is_found(data, i as int);
            }
            match lru_peek(&self.data_cache, names[i].as_str()) {
                Some(entry) => {
                    out.push(
                        Candidate {
                            cid: names[i].clone(),
                            last_accessed: entry.last_accessed,
                            access_count: entry.access_count,
                            priority: entry.priority,
                            size: entry.data.len(),
                        },
                    );
                },
                None => {},
            }
            i += 1;
        }
        out
    }

    /// Evicts the first fifth of some contents, rounded up.
    pub fn evict(&mut self, ranked: &Vec<String>)
        requires
            well_formed(old(self)@),
            old(self)@.stats.evictions_count + ranked@.len() <= u64::MAX,
        ensures
            well_formed(final(self)@),
            ({
                let n = eviction_count(ranked@.len());
                let gone = texts(ranked@).take(n as int);
                let total = old(self)@.stats.total_bytes_cached;
                let set_free = freed(old(self)@.data, gone);
                &&& final(self)@ == (CacheModel {
                    data: without_all(old(self)@.data, gone),
                    stats: CacheStats {
                        evictions_count: (old(self)@.stats.evictions_count + n) as u64,
                        total_bytes_cached: if set_free <= total {
                            (total - set_free) as u64
                        } else {
                            0
                        },
                        ..old(self)@.stats
                    },
                    ..old(self)@
                })
            }),
    {
        let ghost before = self@;
        let ghost all = texts(ranked@);
        let n: usize = ranked.len() / 5 + if ranked.len() % 5 == 0 {
            0
        } else {
            1
        };
        let mut set_free: u64 = 0;
        let mut i: usize = 0;
        assert(all.take(0) =~= Seq::empty());
        while i < n
            invariant
                i <= n <= ranked@.len(),
                all == texts(ranked@),
                well_formed(self@),
                self@ == (CacheModel { data: without_all(before.data, all.take(i as int)), ..before }),
                set_free == if freed(before.data, all.take(i as int)) <= u64::MAX {
                    freed(before.data, all.take(i as int)) as u64
                } else {
                    u64::MAX
                },
            decreases n - i,
        {
            let ghost taken = all.take(i + 1);
            assert(taken.drop_last() =~= all.take(i as int));
            assert(taken.last() == ranked@[i as int]@);
            proof {
                lemma_accessed_at_most(
                    self@.data,
                    ranked@[i as int]@,
                    self@.stats.data_cache_hits + 1,
                );
            }
            match lru_pop(&mut self.data_cache, ranked[i].as_str()) {
                Some(entry) => {
                    set_free = set_free.saturating_add(entry.data.len() as u64);
                },
                None => {},
            }
            i += 1;
        }
        self.stats.evictions_count = self.stats.evictions_count + n as u64;
        self.stats.total_bytes_cached = self.stats.total_bytes_cached.saturating_sub(set_free);
    }

    /// Lets go of everything; the history stays.
    pub fn clear(&mut self)
        ensures
            well_formed(old(self)@) ==> well_formed(final(self)@),
            final(self)@ == (CacheModel {
                data: Seq::empty(),
                compressed: Seq::empty(),
                stats: CacheStats {
                    data_cache_hits: 0,
                    data_cache_misses: 0,
                    compressed_cache_hits: 0,
                    compressed_cache_misses: 0,
                    total_bytes_cached: 0,
                    evictions_count: 0,
                    compressions_count: 0,
                },
                ..old(self)@
            }),
    {
        lru_clear(&mut self.data_cache);
        lru_clear(&mut self.compressed_cache);
        self.stats = CacheStats {
            data_cache_hits: 0,
            data_cache_misses: 0,
            compressed_cache_hits: 0,
            compressed_cache_misses: 0,
            total_bytes_cached: 0,
            evictions_count: 0,
            compressions_count: 0,
        };
    }

    /// The counts.
    pub fn get_stats(&self) -> (r: CacheStats)
        ensures
            r == self@.stats,
    {
        self.stats
    }
}

/// A cache never holds more than it may, and what was put in last is in it.
pub proof fn lemma_cache_is_bounded(
    entries: Seq<(Seq<char>, CacheEntry)>,
    capacity: nat,
    key: Seq<char>,
    value: CacheEntry,
)
    requires
        entries.len() <= capacity,
        capacity > 0,
    ensures
        put_front(entries, capacity, key, value).len() <= capacity,
        lookup(put_front(entries, capacity, key, value), key) == Some(value),
{
    if lookup(entries, key) is Some {
        crate::entries::lemma_found_is_removed(entries, key);
    }
}

} // verus!
