//! What a node pins, gives, connects to and tells of itself.
use crate::bytes::utf8_lossy;
use crate::entries::{
    keys_ordered, lemma_lookup_is_an_entry, lemma_lookup_with_entry, lemma_lookup_without_entry,
    lookup,
};
use crate::error::GuardianError;
use crate::hash::ContentHash;
use crate::hexadecimal::{hex_decoded, lemma_hex_round_trip};
use crate::p2p::network::backend::{
    added_content, cat, choose_address, discover_peer_integrated, load_or_generate_node_secret_key,
    pin_hashes, record_snapshot, repo_stat, tagged_pins, total, with_remembered, AddressSource,
    CatStep, ConnectionInfo, HealthStatus, IrohBackend, PinInfo, PinType, Resolution, TagInfo,
};
use crate::p2p::network::types::{AddResponse, PeerInfo, RepoStats};
use crate::p2p::node::NodeId;
use crate::text::{lemma_decimal_reads, numeral_value};
use vstd::prelude::*;

verus! {

/// Content is pinned exactly where its hash is one and the store has it, by a tag that tells the
/// hash.
pub proof fn lemma_pin_add(
    node: &IrohBackend,
    hash_str: &str,
    is_stored: bool,
    r: Result<(ContentHash, String), GuardianError>,
)
    requires
        call_ensures(IrohBackend::pin_add, (node, hash_str, is_stored), r),
    ensures
        r is Ok ==> is_stored && hex_decoded(hash_str@) == Some(r->Ok_0.0.bytes@) && r->Ok_0.1@
            == "pin-"@ + hash_str@,
        !is_stored ==> r is Err,
        hex_decoded(hash_str@) is None ==> r is Err,
{
}

/// What is remembered as pinned stays so until it is let go, whatever else is pinned.
pub proof fn lemma_remembered_pins(
    node: &mut IrohBackend,
    hash_str: &str,
    later: &mut IrohBackend,
    gone: &str,
    r: Result<String, GuardianError>,
    other: Seq<char>,
)
    requires
        call_ensures(IrohBackend::pinned, (node, hash_str), ()),
        keys_ordered(old(node)@.pinned),
        keys_ordered(final(node)@.pinned),
        old(later)@ == final(node)@,
        call_ensures(IrohBackend::pin_rm, (later, gone), r),
    ensures
        lookup(final(node)@.pinned, hash_str@) is Some,
        other != hash_str@ ==> lookup(final(node)@.pinned, other) == lookup(
            old(node)@.pinned,
            other,
        ),
        r is Ok <==> gone@ == hash_str@ || lookup(old(node)@.pinned, gone@) is Some,
        r is Ok ==> r->Ok_0@ == "pin-"@ + gone@,
        lookup(final(later)@.pinned, gone@) is None,
        other != gone@ ==> lookup(final(later)@.pinned, other) == lookup(
            final(node)@.pinned,
            other,
        ),
{
    lemma_lookup_with_entry(old(node)@.pinned, hash_str@, PinType::Direct, hash_str@);
    lemma_lookup_with_entry(old(node)@.pinned, hash_str@, PinType::Direct, other);
    lemma_lookup_with_entry(old(node)@.pinned, hash_str@, PinType::Direct, gone@);
    lemma_lookup_without_entry(final(node)@.pinned, gone@, gone@);
    lemma_lookup_without_entry(final(node)@.pinned, gone@, other);
}

/// Whether a tag of the store pins content.
pub open spec fn is_tagged(tags: Seq<TagInfo>, hash: Seq<char>) -> bool {
    exists|i: int| 0 <= i < tags.len() && utf8_lossy((#[trigger] tags[i]).name@) == "pin-"@ + hash
}

/// The pins of tags are those that the tags tell.
proof fn lemma_tagged(tags: Seq<TagInfo>, hash: Seq<char>)
    ensures
        pin_hashes(tagged_pins(tags)).contains(hash) <==> is_tagged(tags, hash),
    decreases tags.len(),
{
    reveal_strlit("pin-");
    let pins = tagged_pins(tags);
    if tags.len() > 0 {
        let front = tags.drop_last();
        let n = tags.len() - 1;
        lemma_tagged(front, hash);
        let before = tagged_pins(front);
        let name = utf8_lossy(tags.last().name@);
        let found = crate::text::behind(name, "pin-"@);
        if found is Some {
            assert(name =~= "pin-"@ + found->0) by {
                assert(name.take(4) =~= "pin-"@);
                assert(name =~= name.take(4) + name.skip(4));
            }
            assert(pin_hashes(pins) =~= pin_hashes(before).push(found->0));
        }
        if pin_hashes(pins).contains(hash) {
            let k = choose|k: int| 0 <= k < pin_hashes(pins).len() && pin_hashes(pins)[k] == hash;
            if k < pin_hashes(before).len() {
                assert(pin_hashes(before)[k] == hash);
                let i = choose|i: int|
                    0 <= i < front.len() && utf8_lossy((#[trigger] front[i]).name@) == "pin-"@
                        + hash;
                assert(tags[i] == front[i]);
            } else {
                assert(tags[n] == tags.last());
            }
        }
        if is_tagged(tags, hash) {
            let i = choose|i: int|
                0 <= i < tags.len() && utf8_lossy((#[trigger] tags[i]).name@) == "pin-"@ + hash;
            if i < n {
                assert(front[i] == tags[i]);
                let k = choose|k: int|
                    0 <= k < pin_hashes(before).len() && pin_hashes(before)[k] == hash;
                assert(pin_hashes(pins)[k] == hash);
            } else {
                let whole = "pin-"@ + hash;
                assert(whole.take(4) =~= "pin-"@);
                assert(whole.skip(4) =~= hash);
                assert(pin_hashes(pins)[pin_hashes(before).len() as int] == hash);
            }
        }
    } else {
        assert(pin_hashes(pins).len() == 0);
    }
}

/// Pins with those that are remembered hold both, and nothing else.
proof fn lemma_with_remembered(
    pins: Seq<(Seq<char>, PinType)>,
    remembered: Seq<(Seq<char>, PinType)>,
    hash: Seq<char>,
)
    ensures
        pin_hashes(with_remembered(pins, remembered)).contains(hash) <==> pin_hashes(pins).contains(
            hash,
        ) || pin_hashes(remembered).contains(hash),
    decreases remembered.len(),
{
    if remembered.len() > 0 {
        let front = remembered.drop_last();
        let last = remembered.last();
        lemma_with_remembered(pins, front, hash);
        let before = with_remembered(pins, front);
        let after = with_remembered(pins, remembered);
        let all = pin_hashes(remembered);
        assert(all =~= pin_hashes(front).push(last.0));
        if all.contains(hash) {
            let k = choose|k: int| 0 <= k < all.len() && all[k] == hash;
            if k < front.len() {
                assert(pin_hashes(front)[k] == hash);
            }
        }
        if pin_hashes(front).contains(hash) {
            let k = choose|k: int|
                0 <= k < pin_hashes(front).len() && pin_hashes(front)[k] == hash;
            assert(all[k] == hash);
        }
        assert(all[all.len() - 1] == last.0);
        if !pin_hashes(before).contains(last.0) {
            assert(pin_hashes(after) =~= pin_hashes(before).push(last.0));
            if pin_hashes(after).contains(hash) {
                let k = choose|k: int|
                    0 <= k < pin_hashes(after).len() && pin_hashes(after)[k] == hash;
                if k < pin_hashes(before).len() {
                    assert(pin_hashes(before)[k] == hash);
                }
            }
            if pin_hashes(before).contains(hash) {
                let k = choose|k: int|
                    0 <= k < pin_hashes(before).len() && pin_hashes(before)[k] == hash;
                assert(pin_hashes(after)[k] == hash);
            }
            assert(pin_hashes(after)[pin_hashes(before).len() as int] == last.0);
        }
    } else {
        assert(pin_hashes(remembered).len() == 0);
    }
}

/// What is listed as pinned is what a tag of the store pins or the node remembers.
pub proof fn lemma_pin_ls(
    node: &IrohBackend,
    tags: &Vec<TagInfo>,
    r: Vec<PinInfo>,
    hash: Seq<char>,
)
    requires
        call_ensures(IrohBackend::pin_ls, (node, tags), r),
    ensures
        (exists|i: int| 0 <= i < r@.len() && (#[trigger] r@[i]).hash@ == hash) <==> is_tagged(
            tags@,
            hash,
        ) || lookup(node@.pinned, hash) is Some,
{
    lemma_tagged(tags@, hash);
    lemma_with_remembered(tagged_pins(tags@), node@.pinned, hash);
    let listed = pin_hashes(with_remembered(tagged_pins(tags@), node@.pinned));
    let models = crate::p2p::network::backend::pin_models(r@);
    assert(models.len() == r@.len());
    if exists|i: int| 0 <= i < r@.len() && (#[trigger] r@[i]).hash@ == hash {
        let i = choose|i: int| 0 <= i < r@.len() && (#[trigger] r@[i]).hash@ == hash;
        assert(models[i] == (r@[i].hash@, r@[i].pin_type));
        assert(listed[i] == hash);
    }
    if listed.contains(hash) {
        let i = choose|i: int| 0 <= i < listed.len() && listed[i] == hash;
        assert(models[i] == (r@[i].hash@, r@[i].pin_type));
        assert(r@[i].hash@ == hash);
    }
    lemma_lookup_is_an_entry(node@.pinned, hash);
    let known = pin_hashes(node@.pinned);
    if known.contains(hash) {
        let i = choose|i: int| 0 <= i < known.len() && known[i] == hash;
        assert(node@.pinned[i].0 == hash);
    }
    if lookup(node@.pinned, hash) is Some {
        let i = choose|i: int|
            0 <= i < node@.pinned.len() && #[trigger] node@.pinned[i] == (
                hash,
                lookup(node@.pinned, hash)->0,
            );
        assert(known[i] == hash);
    }
}

/// The answer to adding content tells its hash and its size.
pub proof fn lemma_added_content(hash: &ContentHash, size: usize, r: AddResponse)
    requires
        call_ensures(added_content, (hash, size), r),
    ensures
        hex_decoded(r.hash@) == Some(hash.bytes@),
        numeral_value(r.size@) == Some(size as nat),
{
    lemma_hex_round_trip(hash@);
    lemma_decimal_reads(size as nat);
}

/// Content that the cache has is given as it is; other content is fetched by its hash, which has
/// to be one.
pub proof fn lemma_cat(hash_str: &str, cached: Option<Vec<u8>>, r: Result<CatStep, GuardianError>)
    requires
        call_ensures(cat, (hash_str, cached), r),
    ensures
        cached is Some ==> r is Ok && r->Ok_0 == CatStep::Cached(cached->0),
        cached is None && r is Ok ==> r->Ok_0 is Fetch && hex_decoded(hash_str@) == Some(
            r->Ok_0->Fetch_0.bytes@,
        ),
        cached is None && hex_decoded(hash_str@) is Some && hex_decoded(hash_str@)->0.len() == 32
            ==> r is Ok,
        cached is None && !(hex_decoded(hash_str@) is Some && hex_decoded(hash_str@)->0.len() == 32)
            ==> r is Err,
{
}

/// What was added is fetched by the hash that the answer told.
pub proof fn lemma_added_is_fetched(
    hash: &ContentHash,
    size: usize,
    added: AddResponse,
    asked: &str,
    r: Result<CatStep, GuardianError>,
)
    requires
        call_ensures(added_content, (hash, size), added),
        asked@ == added.hash@,
        call_ensures(cat, (asked, None), r),
    ensures
        r is Ok,
        r->Ok_0 is Fetch,
        r->Ok_0->Fetch_0.bytes@ == hash.bytes@,
{
    lemma_hex_round_trip(hash@);
}

/// A peer that the endpoint knows is reached by what it knows; another one only by discovery,
/// where there is one and it finds the peer.
pub proof fn lemma_address(
    peer: &NodeId,
    has_discovery: bool,
    is_known: bool,
    resolution: Resolution,
    r: Result<AddressSource, GuardianError>,
)
    requires
        call_ensures(choose_address, (peer, has_discovery, is_known, resolution), r),
    ensures
        is_known ==> r is Ok && r->Ok_0 == AddressSource::Remote,
        !is_known && has_discovery && resolution is Found ==> r is Ok && r->Ok_0
            == AddressSource::Discovery,
        !is_known && !(has_discovery && resolution is Found) ==> r is Err,
{
}

/// The addresses of a peer are those that the endpoint knows, and those that were resolved only
/// where it knows none.
pub proof fn lemma_addresses(
    peer: &NodeId,
    known: Vec<String>,
    resolved: Vec<String>,
    r: Result<Vec<String>, GuardianError>,
)
    requires
        call_ensures(discover_peer_integrated, (peer, known, resolved), r),
    ensures
        known@.len() > 0 ==> r is Ok && r->Ok_0 == known,
        known@.len() == 0 && resolved@.len() > 0 ==> r is Ok && r->Ok_0 == resolved,
        known@.len() == 0 && resolved@.len() == 0 ==> r is Err,
{
}

/// A key of 32 bytes that was read is taken; anything else is replaced by a new one, which is to
/// be saved.
pub proof fn lemma_node_key(read: Option<Vec<u8>>, r: ([u8; 32], bool))
    requires
        call_ensures(load_or_generate_node_secret_key, (read,), r),
    ensures
        r.1 <==> read is None || read->0@.len() != 32,
        !r.1 ==> r.0@ == read->0@,
{
}

/// An operation that ended is counted, and so is its error, which is remembered until one ends
/// well.
pub proof fn lemma_counted_operation(node: &mut IrohBackend, result: Result<(), String>, now: u64)
    requires
        call_ensures(IrohBackend::operation_finished, (node, result, now), ()),
        old(node)@.total_operations < u64::MAX,
        old(node)@.error_count < u64::MAX,
    ensures
        final(node)@.total_operations == old(node)@.total_operations + 1,
        result is Ok ==> final(node)@.error_count == old(node)@.error_count,
        result is Err ==> final(node)@.error_count == old(node)@.error_count + 1,
        result is Ok ==> final(node)@.last_error is None,
        result is Err ==> final(node)@.last_error == Some(result->Err_0@),
        final(node)@.last_activity == now,
        final(node)@.pool == old(node)@.pool,
        final(node)@.pinned == old(node)@.pinned,
{
}

/// A connection that was made is there and was just used, at the address it was made to; others
/// stay. One more peer is connected.
pub proof fn lemma_connected(
    node: &mut IrohBackend,
    peer: &NodeId,
    address: Option<String>,
    now: u64,
    other: Seq<u8>,
)
    requires
        call_ensures(IrohBackend::connected, (node, peer, address, now), ()),
    ensures
        ({
            let before = old(node)@;
            let after = final(node)@;
            &&& after.pool.dom().contains(peer@)
            &&& after.pool[peer@].connected_at == now
            &&& after.pool[peer@].last_used == now
            &&& after.pool[peer@].operations_count == 0
            &&& address is Some ==> after.pool[peer@].address == address->0@
            &&& before.connected_peers < u32::MAX ==> after.connected_peers
                == before.connected_peers + 1
            &&& other != peer@ ==> after.pool.dom().contains(other) == before.pool.dom().contains(
                other,
            )
            &&& other != peer@ && before.pool.dom().contains(other) ==> after.pool[other]
                == before.pool[other]
        }),
{
}

/// A connection that is used is told, as used now and once more; where there is none, that is an
/// error.
pub proof fn lemma_used_connection(
    node: &mut IrohBackend,
    peer: &NodeId,
    now: u64,
    r: Result<ConnectionInfo, GuardianError>,
)
    requires
        call_ensures(IrohBackend::get_connection_from_pool, (node, peer, now), r),
        old(node)@.pool.dom().contains(peer@) ==> old(node)@.pool[peer@].operations_count
            < u64::MAX,
    ensures
        r is Ok <==> old(node)@.pool.dom().contains(peer@),
        r is Ok ==> {
            let before = old(node)@.pool[peer@];
            &&& r->Ok_0.node_id == *peer
            &&& r->Ok_0.address@ == before.address
            &&& r->Ok_0.last_used == now
            &&& r->Ok_0.operations_count == before.operations_count + 1
            &&& final(node)@.pool[peer@].operations_count == before.operations_count + 1
            &&& final(node)@.pool[peer@].last_used == now
        },
{
}

/// A connection that was dropped is there no more; where there is none, that is an error.
pub proof fn lemma_dropped_connection(
    node: &mut IrohBackend,
    peer: &NodeId,
    r: Result<(), GuardianError>,
    other: Seq<u8>,
)
    requires
        call_ensures(IrohBackend::remove_connection_from_pool, (node, peer), r),
    ensures
        r is Ok <==> old(node)@.pool.dom().contains(peer@),
        !final(node)@.pool.dom().contains(peer@),
        other != peer@ ==> final(node)@.pool.dom().contains(other) == old(node)@.pool.dom().contains(other),
        r is Ok && old(node)@.connected_peers > 0 ==> final(node)@.connected_peers == old(node)@.connected_peers - 1,
{
}

/// Cleaning up drops exactly the connections that were not used for longer than the time.
pub proof fn lemma_cleaned_up(
    node: &mut IrohBackend,
    timeout: u64,
    now: u64,
    r: usize,
    peer: Seq<u8>,
)
    requires
        call_ensures(IrohBackend::cleanup_stale_connections, (node, timeout, now), r),
    ensures
        final(node)@.pool.dom().contains(peer) <==> old(node)@.pool.dom().contains(peer) && now
            <= old(node)@.pool[peer].last_used + timeout,
        final(node)@.pool.dom().contains(peer) ==> final(node)@.pool[peer] == old(node)@.pool[peer],
        final(node)@.pool.len() + r == old(node)@.pool.len(),
{
}

/// The peers that are told are those with a connection and those that were discovered, each
/// once. One with a connection counts as connected if it was used within a minute, and another
/// if it was seen within half a minute.
pub proof fn lemma_told_peers(node: &IrohBackend, now: u64, r: Vec<PeerInfo>, i: int)
    requires
        call_ensures(IrohBackend::peers, (node, now), r),
        0 <= i < r@.len(),
    ensures
        node@.pool.dom().contains(r@[i].id@) || node@.discovered.dom().contains(r@[i].id@),
        node@.pool.dom().contains(r@[i].id@) ==> (r@[i].connected <==> now < node@.pool[r@[i].id@].last_used + 60_000_000_000),
        !node@.pool.dom().contains(r@[i].id@) ==> (r@[i].connected <==> now
            < node@.discovered[r@[i].id@].last_seen + 30_000_000_000),
        forall|j: int| 0 <= j < r@.len() && j != i ==> (#[trigger] r@[j]).id@ != r@[i].id@,
{
    let ids = crate::p2p::network::backend::peer_ids(r@);
    assert(ids[i] == r@[i].id@);
    assert(ids.contains(r@[i].id@));
    let model = crate::p2p::network::backend::peer_model(r@[i]);
    assert(model.connected == r@[i].connected);
    assert forall|j: int| 0 <= j < r@.len() && j != i implies (#[trigger] r@[j]).id@
        != r@[i].id@ by {
        assert(ids[j] == r@[j].id@);
    }
}

/// Every peer with a connection, or that was discovered, is told.
pub proof fn lemma_all_peers_are_told(node: &IrohBackend, now: u64, r: Vec<PeerInfo>, peer: Seq<u8>)
    requires
        call_ensures(IrohBackend::peers, (node, now), r),
    ensures
        node@.pool.dom().contains(peer) || node@.discovered.dom().contains(peer) ==> exists|i: int|
            0 <= i < r@.len() && (#[trigger] r@[i]).id@ == peer,
{
    let ids = crate::p2p::network::backend::peer_ids(r@);
    if node@.pool.dom().contains(peer) || node@.discovered.dom().contains(peer) {
        assert(ids.contains(peer));
        let i = choose|i: int| 0 <= i < ids.len() && ids[i] == peer;
        assert(r@[i].id@ == peer);
    }
}

/// A node is healthy exactly where it is online and its directory can be read; it tells the
/// three checks with what came of them.
pub proof fn lemma_health(
    node: &IrohBackend,
    data_ok: bool,
    metrics_ok: bool,
    response_time_ms: u64,
    r: HealthStatus,
)
    requires
        call_ensures(
            IrohBackend::health_check,
            (node, data_ok, metrics_ok, response_time_ms),
            r,
        ),
    ensures
        r.healthy <==> node@.is_online && data_ok,
        r.checks@.len() == 3,
        r.checks@[0].passed == node@.is_online,
        r.checks@[1].passed == data_ok,
        r.checks@[2].passed == metrics_ok,
        r.response_time_ms == response_time_ms,
{
    let models = crate::p2p::network::backend::check_models(r.checks@);
    assert(models.len() == r.checks@.len());
    assert(models[0].passed == r.checks@[0].passed);
    assert(models[1].passed == r.checks@[1].passed);
    assert(models[2].passed == r.checks@[2].passed);
}

/// A node is online from the time it was started until it is shut down.
pub proof fn lemma_online(
    starting: &mut IrohBackend,
    now: u64,
    stopping: &mut IrohBackend,
    then: u64,
)
    requires
        call_ensures(IrohBackend::started, (starting, now), ()),
        call_ensures(IrohBackend::shutdown, (stopping, then), ()),
    ensures
        final(starting)@.is_online,
        final(starting)@.last_error is None,
        !final(stopping)@.is_online,
        final(starting)@.pinned == old(starting)@.pinned,
        final(stopping)@.pinned == old(stopping)@.pinned,
{
}

/// What a store holds is counted: its files, and the sum of their sizes.
pub proof fn lemma_counted_store(path: String, sizes: &Vec<u64>, r: RepoStats)
    requires
        call_ensures(repo_stat, (path, sizes), r),
    ensures
        r.num_objects == sizes@.len(),
        r.repo_path == path,
        r.repo_size == sizes@.fold_left(0int, |sum: int, size: u64| sum + size),
{
    lemma_total_is_sum(sizes@);
}

/// The sum of sizes, added up from the first.
proof fn lemma_total_is_sum(sizes: Seq<u64>)
    ensures
        total(sizes) == sizes.fold_left(0int, |sum: int, size: u64| sum + size),
    decreases sizes.len(),
{
    if sizes.len() > 0 {
        lemma_total_is_sum(sizes.drop_last());
    }
}

/// A snapshot is the last of at most a hundred that are kept.
pub proof fn lemma_recorded_snapshot<T>(history: &mut Vec<T>, snapshot: T)
    requires
        call_ensures(record_snapshot::<T>, (history, snapshot), ()),
    ensures
        final(history)@.len() > 0,
        final(history)@.last() == snapshot,
        final(history)@.drop_last() == if old(history)@.len() < 100 {
            old(history)@
        } else {
            old(history)@.skip(1)
        },
{
    assert(final(history)@.drop_last() =~= if old(history)@.len() < 100 {
        old(history)@
    } else {
        old(history)@.skip(1)
    });
}

/// A peer that was noted is known; whoever was known still is, and nobody else.
pub proof fn lemma_known_peers(node: &mut IrohBackend, peer: &NodeId, other: Seq<u8>)
    requires
        call_ensures(IrohBackend::note_known_peer, (node, peer), ()),
    ensures
        final(node)@.known.contains(other) <==> old(node)@.known.contains(other) || other == peer@,
{
    let v = old(node)@.known;
    let after = v.push(peer@);
    assert(after[v.len() as int] == peer@);
    if v.contains(other) {
        let i = choose|i: int| 0 <= i < v.len() && v[i] == other;
        assert(after[i] == other);
    }
    if after.contains(other) && other != peer@ {
        let i = choose|i: int| 0 <= i < after.len() && after[i] == other;
        assert(v[i] == other);
    }
}

} // verus!
