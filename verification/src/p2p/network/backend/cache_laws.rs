//! What the cache gives back of what was put into it.
use crate::entries::{lemma_lookup_is_an_entry, lookup, without_entry};
use crate::p2p::network::backend::optimized_cache::{
    put_front, without_all, zstd_compressed, zstd_contents, CacheConfig, CacheEntry,
    OptimizedCache, PutOutcome,
};
use crate::text::texts;
use vstd::prelude::*;

verus! {

/// Removing a key leaves what is looked up under every other.
proof fn lemma_others_stay(
    entries: Seq<(Seq<char>, CacheEntry)>,
    key: Seq<char>,
    other: Seq<char>,
)
    requires
        other != key,
    ensures
        lookup(without_entry(entries, key), other) == lookup(entries, other),
    decreases entries.len(),
{
    if entries.len() > 0 {
        let rest = entries.skip(1);
        lemma_others_stay(rest, key, other);
        if entries[0].0 != key {
            let after = without_entry(entries, key);
            assert(after.skip(1) =~= without_entry(rest, key));
            assert(after[0] == entries[0]);
        }
    }
}

/// The last entry may go without changing what is looked up under another key.
proof fn lemma_last_may_go(entries: Seq<(Seq<char>, CacheEntry)>, other: Seq<char>)
    requires
        entries.len() > 0,
        entries.last().0 != other,
    ensures
        lookup(entries.drop_last(), other) == lookup(entries, other),
    decreases entries.len(),
{
    if entries.len() > 1 {
        let rest = entries.skip(1);
        lemma_last_may_go(rest, other);
        assert(entries.drop_last().skip(1) =~= rest.drop_last());
        assert(entries.drop_last()[0] == entries[0]);
    } else {
        assert(entries.skip(1) =~= Seq::empty());
        assert(entries.drop_last() =~= Seq::empty());
    }
}

/// What is put in front is found, and what was there is found as before, but for the one that
/// was used least recently where there is no room.
pub proof fn lemma_put_in_front(
    entries: Seq<(Seq<char>, CacheEntry)>,
    capacity: nat,
    key: Seq<char>,
    value: CacheEntry,
    other: Seq<char>,
)
    ensures
        put_front(entries, capacity, key, value)[0] == (key, value),
        lookup(put_front(entries, capacity, key, value), key) == Some(value),
        other != key && (entries.len() < capacity || lookup(entries, key) is Some || (entries.len()
            > 0 && entries.last().0 != other)) ==> lookup(
            put_front(entries, capacity, key, value),
            other,
        ) == lookup(entries, other),
{
    let after = put_front(entries, capacity, key, value);
    let behind = if lookup(entries, key) is Some {
        without_entry(entries, key)
    } else if entries.len() < capacity {
        entries
    } else {
        entries.drop_last()
    };
    assert(after =~= seq![(key, value)] + behind);
    assert(after.skip(1) =~= behind);
    if other != key {
        lemma_others_stay(entries, key, other);
        if lookup(entries, key) is None && entries.len() >= capacity && entries.len() > 0
            && entries.last().0 != other {
            lemma_last_may_go(entries, other);
        }
    }
}

/// Content is compressed from the threshold on, if it can be; it is stored as it is otherwise.
/// What is stored as it is takes the place of what was stored so before.
pub proof fn lemma_put(
    cache: &mut OptimizedCache,
    cid: &str,
    data: Vec<u8>,
    now: u64,
    r: PutOutcome,
)
    requires
        call_ensures(OptimizedCache::put, (cache, cid, data, now), r),
    ensures
        ({
            let before = old(cache)@;
            let after = final(cache)@;
            let packed = zstd_compressed(data@, before.config.compression_level);
            let packs = data@.len() >= before.config.compression_threshold && packed is Some;
            &&& packs <==> r is Compressed
            &&& packs ==> {
                &&& r->Compressed_0 == packed->0.len()
                &&& after.data == before.data
                &&& after.compressed.len() > 0
                &&& after.compressed[0].0 == cid@
                &&& after.compressed[0].1.data@ == packed->0
                &&& after.compressed[0].1.original_size == data@.len()
                &&& zstd_contents(packed->0) == Some(data@)
            }
            &&& !packs ==> {
                &&& after.compressed == before.compressed
                &&& after.data.len() > 0
                &&& after.data[0].0 == cid@
                &&& after.data[0].1.data@ == data@
            }
        }),
{
}

/// What was put in is got back, as long as nothing older is kept as it is under the same
/// identifier.
pub proof fn lemma_get_after_put(
    cache: &mut OptimizedCache,
    cid: &str,
    data: Vec<u8>,
    now: u64,
    outcome: PutOutcome,
    later: &mut OptimizedCache,
    then: u64,
    r: Option<Vec<u8>>,
)
    requires
        call_ensures(OptimizedCache::put, (cache, cid, data, now), outcome),
        old(later)@ == final(cache)@,
        call_ensures(OptimizedCache::get, (later, cid, then), r),
        outcome is Plain || lookup(old(cache)@.data, cid@) is None,
    ensures
        r is Some,
        r->0@ == data@,
{
}

/// What is kept as it is is got as it is; nothing is got of what is not kept. Content that is
/// found stays kept and counts as found, and what is not found counts as missed.
pub proof fn lemma_get(cache: &mut OptimizedCache, cid: &str, now: u64, r: Option<Vec<u8>>)
    requires
        call_ensures(OptimizedCache::get, (cache, cid, now), r),
        old(cache)@.stats.data_cache_hits < u64::MAX - 1,
        old(cache)@.stats.compressed_cache_hits < u64::MAX - 1,
        old(cache)@.stats.data_cache_misses < u64::MAX - 1,
    ensures
        ({
            let before = old(cache)@;
            let after = final(cache)@;
            let plain = lookup(before.data, cid@);
            let packed = lookup(before.compressed, cid@);
            &&& plain is Some ==> r is Some && r->0@ == plain->0.data@
            &&& plain is None && packed is Some && r is Some ==> zstd_contents(packed->0.data@)
                == Some(r->0@)
            &&& plain is None && packed is None ==> r is None
            &&& r is Some ==> lookup(after.data, cid@) is Some && lookup(after.data, cid@)->0.data@
                == r->0@
            &&& plain is Some ==> after.stats.data_cache_hits == before.stats.data_cache_hits + 1
                && after.compressed == before.compressed
            &&& plain is None && r is Some ==> after.stats.compressed_cache_hits
                == before.stats.compressed_cache_hits + 1
            &&& r is None ==> after.stats.data_cache_misses == before.stats.data_cache_misses + 1
                && after.data == before.data
        }),
{
    let before = old(cache)@;
    let after = final(cache)@;
    if lookup(before.data, cid@) is Some {
        let entry = lookup(before.data, cid@)->0;
        assert(after.data[0].0 == cid@);
        assert(lookup(after.data, cid@) == Some(after.data[0].1));
    } else if r is Some {
        assert(after.data[0].0 == cid@);
        assert(lookup(after.data, cid@) == Some(after.data[0].1));
    }
}

/// Nothing is got of a new cache, nor of one that was cleared.
pub proof fn lemma_cleared(
    cache: &mut OptimizedCache,
    later: &mut OptimizedCache,
    cid: &str,
    now: u64,
    r: Option<Vec<u8>>,
)
    requires
        call_ensures(OptimizedCache::clear, (cache,), ()),
        old(later)@ == final(cache)@,
        call_ensures(OptimizedCache::get, (later, cid, now), r),
    ensures
        r is None,
{
}

/// Nothing is got of a new cache.
pub proof fn lemma_new_cache(
    config: CacheConfig,
    cache: OptimizedCache,
    later: &mut OptimizedCache,
    cid: &str,
    now: u64,
    r: Option<Vec<u8>>,
)
    requires
        call_ensures(OptimizedCache::new, (config,), cache),
        old(later)@ == cache@,
        call_ensures(OptimizedCache::get, (later, cid, now), r),
    ensures
        r is None,
        config.max_data_entries > 0 ==> cache@.data_capacity == config.max_data_entries,
        config.max_compressed_entries > 0 ==> cache@.compressed_capacity
            == config.max_compressed_entries,
{
}

/// Whether no identifier occurs twice.
pub open spec fn each_once(entries: Seq<(Seq<char>, CacheEntry)>) -> bool {
    forall|i: int, j: int|
        0 <= i < j < entries.len() ==> (#[trigger] entries[i]).0 != (#[trigger] entries[j]).0
}

/// Removing a key that occurs once lets nothing be looked up under it.
proof fn lemma_gone(entries: Seq<(Seq<char>, CacheEntry)>, key: Seq<char>)
    requires
        each_once(entries),
    ensures
        lookup(without_entry(entries, key), key) is None,
        each_once(without_entry(entries, key)),
        forall|i: int|
            0 <= i < without_entry(entries, key).len() ==> exists|j: int|
                0 <= j < entries.len() && entries[j] == #[trigger] without_entry(entries, key)[i],
    decreases entries.len(),
{
    if entries.len() > 0 {
        let rest = entries.skip(1);
        assert forall|i: int, j: int| 0 <= i < j < rest.len() implies (#[trigger] rest[i]).0 != (
        #[trigger] rest[j]).0 by {
            assert(rest[i] == entries[i + 1] && rest[j] == entries[j + 1]);
        }
        lemma_gone(rest, key);
        let after = without_entry(entries, key);
        if entries[0].0 == key {
            lemma_lookup_is_an_entry(rest, key);
            if lookup(rest, key) is Some {
                let i = choose|i: int|
                    0 <= i < rest.len() && #[trigger] rest[i] == (key, lookup(rest, key)->0);
                assert(rest[i] == entries[i + 1]);
            }
            assert forall|i: int| 0 <= i < after.len() implies exists|j: int|
                0 <= j < entries.len() && entries[j] == #[trigger] after[i] by {
                assert(entries[i + 1] == after[i]);
            }
        } else {
            let behind = without_entry(rest, key);
            assert(after.skip(1) =~= behind);
            assert forall|i: int| 0 <= i < after.len() implies exists|j: int|
                0 <= j < entries.len() && entries[j] == #[trigger] after[i] by {
                if i == 0 {
                    assert(entries[0] == after[0]);
                } else {
                    assert(after[i] == behind[i - 1]);
                    let j = choose|j: int| 0 <= j < rest.len() && rest[j] == behind[i - 1];
                    assert(entries[j + 1] == after[i]);
                }
            }
            assert forall|i: int, j: int| 0 <= i < j < after.len() implies (
            #[trigger] after[i]).0 != (#[trigger] after[j]).0 by {
                assert(after[j] == behind[j - 1]);
                if i == 0 {
                    let k = choose|k: int| 0 <= k < rest.len() && rest[k] == behind[j - 1];
                    assert(entries[k + 1] == after[j]);
                } else {
                    assert(after[i] == behind[i - 1]);
                }
            }
        }
    }
}

/// Removing keys lets nothing be looked up under them, and leaves every other.
proof fn lemma_all_gone(
    entries: Seq<(Seq<char>, CacheEntry)>,
    gone: Seq<Seq<char>>,
    key: Seq<char>,
)
    requires
        each_once(entries),
    ensures
        each_once(without_all(entries, gone)),
        lookup(without_all(entries, gone), key) == if gone.contains(key) {
            None
        } else {
            lookup(entries, key)
        },
    decreases gone.len(),
{
    if gone.len() > 0 {
        let front = gone.drop_last();
        lemma_all_gone(entries, front, key);
        let before = without_all(entries, front);
        lemma_gone(before, gone.last());
        if key != gone.last() {
            lemma_others_stay(before, gone.last(), key);
            if gone.contains(key) {
                let i = choose|i: int| 0 <= i < gone.len() && gone[i] == key;
                assert(front[i] == key);
            }
            if front.contains(key) {
                let i = choose|i: int| 0 <= i < front.len() && front[i] == key;
                assert(gone[i] == key);
            }
        } else {
            assert(gone[gone.len() - 1] == key);
        }
    }
}

/// Of contents that are ranked for eviction the first fifth, rounded up, is kept as it is no
/// more; every other content is kept as before, and what is compressed stays.
pub proof fn lemma_evict(cache: &mut OptimizedCache, ranked: &Vec<String>, cid: Seq<char>)
    requires
        call_ensures(OptimizedCache::evict, (cache, ranked), ()),
        each_once(old(cache)@.data),
    ensures
        ({
            let n = if ranked@.len() % 5 == 0 {
                ranked@.len() / 5
            } else {
                ranked@.len() / 5 + 1
            };
            let evicted = exists|i: int| 0 <= i < n && (#[trigger] ranked@[i])@ == cid;
            &&& evicted ==> lookup(final(cache)@.data, cid) is None
            &&& !evicted ==> lookup(final(cache)@.data, cid) == lookup(old(cache)@.data, cid)
            &&& final(cache)@.compressed == old(cache)@.compressed
            &&& final(cache)@.history == old(cache)@.history
        }),
{
    let n = if ranked@.len() % 5 == 0 {
        ranked@.len() / 5
    } else {
        ranked@.len() / 5 + 1
    };
    let gone = texts(ranked@).take(n as int);
    assert(n == (ranked@.len() + 4) / 5);
    lemma_all_gone(old(cache)@.data, gone, cid);
    if exists|i: int| 0 <= i < n && (#[trigger] ranked@[i])@ == cid {
        let i = choose|i: int| 0 <= i < n && (#[trigger] ranked@[i])@ == cid;
        assert(gone[i] == cid);
    }
    if gone.contains(cid) {
        let i = choose|i: int| 0 <= i < gone.len() && gone[i] == cid;
        assert(ranked@[i]@ == cid);
    }
}

} // verus!
