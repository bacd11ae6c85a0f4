//! When connections are made, kept and used again, and what a handshake says.
use crate::bytes::{be_value, big_endian, lemma_be_round_trip, utf8};
use crate::crypto::ed25519_is_key;
use crate::error::GuardianError;
use crate::p2p::network::backend::connection_pool::{
    check_latency, check_response, first_named, first_reusable, handshake_message, kept_with,
    CircuitBreaker, CircuitState, ConnectionEvent, Handshake,
    HandshakeAction, OptimizedConnectionPool, PoolModel, PoolStep, PooledConnection,
};
use crate::p2p::node::NodeId;
use vstd::prelude::*;

verus! {

/// Whether an open breaker has to wait: no more whole milliseconds have passed since the last
/// failure than it waits for.
pub open spec fn has_to_wait(b: CircuitBreaker, now: u64) -> bool {
    b.state == CircuitState::Open && (b.last_failure_time is None || now
        < b.last_failure_time->0 + (b.timeout_ms + 1) * 1_000_000)
}

/// A breaker lets a connection through unless it is open and has to wait; one that lets a
/// connection through is open no more, and one that does not stays as it is.
pub proof fn lemma_breaker_check(b: &mut CircuitBreaker, now: u64, r: bool)
    requires
        call_ensures(CircuitBreaker::check, (b, now), r),
    ensures
        r <==> !has_to_wait(*old(b), now),
        r ==> final(b).state == if old(b).state == CircuitState::Open {
            CircuitState::HalfOpen
        } else {
            old(b).state
        },
        !r ==> *final(b) == *old(b),
        final(b).failure_count == old(b).failure_count,
{
}

/// A failure counts, is noted with its time and ends a row of successes. It opens a closed
/// breaker whose failures reach the threshold, and no other.
pub proof fn lemma_breaker_failure(b: &mut CircuitBreaker, now: u64, r: bool)
    requires
        call_ensures(CircuitBreaker::record_failure, (b, now), r),
        old(b).failure_count < u32::MAX,
    ensures
        final(b).failure_count == old(b).failure_count + 1,
        final(b).last_failure_time == Some(now),
        final(b).success_count == 0,
        final(b).state == if old(b).state == CircuitState::Closed && old(b).failure_count + 1
            >= old(b).failure_threshold {
            CircuitState::Open
        } else {
            old(b).state
        },
        r <==> old(b).state == CircuitState::Closed && final(b).state == CircuitState::Open,
{
}

/// A success closes a breaker and clears its failures, but a half-open one only with the third
/// in a row.
pub proof fn lemma_breaker_success(b: &mut CircuitBreaker, r: bool)
    requires
        call_ensures(CircuitBreaker::record_success, (b,), r),
        old(b).success_count < u32::MAX,
    ensures
        final(b).success_count == old(b).success_count + 1,
        old(b).state == CircuitState::HalfOpen && old(b).success_count < 2 ==> final(b).state
            == CircuitState::HalfOpen && final(b).failure_count == old(b).failure_count,
        !(old(b).state == CircuitState::HalfOpen && old(b).success_count < 2) ==> final(b).state
            == CircuitState::Closed && final(b).failure_count == 0,
        r <==> old(b).state == CircuitState::HalfOpen && final(b).state == CircuitState::Closed,
{
}

/// Whether a kept connection can be used again: it is free and healthy, and was used less long
/// ago than it may be idle.
pub open spec fn is_free(c: PooledConnection, now: u64, idle_secs: u64) -> bool {
    !c.in_use && c.info.status
        == crate::p2p::network::backend::connection_pool::ConnectionStatus::Healthy && (now
        < c.info.last_used + idle_secs * 1_000_000_000) && idle_secs > 0
}

/// The connections that are kept with a peer.
pub open spec fn connections_with(m: PoolModel, node: Seq<u8>) -> Seq<PooledConnection> {
    if m.pool.dom().contains(node) {
        m.pool[node]
    } else {
        Seq::empty()
    }
}

/// The first kept connection that can be used again is found.
proof fn lemma_first_free(conns: Seq<PooledConnection>, now: u64, idle_secs: u64, from: int)
    requires
        0 <= from,
    ensures
        match first_reusable(conns, now, idle_secs, from) {
            Some(i) => from <= i < conns.len() && is_free(conns[i], now, idle_secs) && forall|
                j: int,
            |
                from <= j < i ==> !is_free(#[trigger] conns[j], now, idle_secs),
            None => forall|j: int|
                from <= j < conns.len() ==> !is_free(#[trigger] conns[j], now, idle_secs),
        },
    decreases conns.len() - from,
{
    if from < conns.len() {
        let c = conns[from];
        let then = c.info.last_used as int;
        assert((now >= then ==> ((now - then) / 1_000_000_000 < idle_secs <==> now - then
            < idle_secs * 1_000_000_000))) by (nonlinear_arith)
            requires
                0 <= idle_secs,
        ;
        lemma_first_free(conns, now, idle_secs, from + 1);
    }
}

/// A peer is left alone exactly while its breaker is open and has to wait. Otherwise the first
/// kept connection that can be used again is used, and is in use from then on; where there is
/// none, a new one is to be made.
pub proof fn lemma_get_connection(
    pool: &mut OptimizedConnectionPool,
    node: &NodeId,
    now: u64,
    r: Result<PoolStep, GuardianError>,
)
    requires
        call_ensures(OptimizedConnectionPool::get_connection, (pool, node, now), r),
    ensures
        ({
            let before = old(pool)@;
            let after = final(pool)@;
            let conns = connections_with(before, node@);
            let idle = before.config.idle_timeout_secs;
            &&& r is Err <==> before.breakers.dom().contains(node@) && has_to_wait(
                before.breakers[node@],
                now,
            )
            &&& r is Ok && r->Ok_0 is Establish <==> r is Ok && forall|i: int|
                0 <= i < conns.len() ==> !is_free(#[trigger] conns[i], now, idle)
            &&& r is Ok && r->Ok_0 is Establish ==> after.pool == before.pool
            &&& r is Ok && r->Ok_0 is Reuse ==> exists|i: int|
                0 <= i < conns.len() && is_free(#[trigger] conns[i], now, idle)
                    && r->Ok_0->Reuse_0@ == conns[i].info.connection_id@
                    && after.pool[node@].len() == conns.len() && after.pool[node@][i].in_use
                    && after.pool[node@][i].info.last_used == now && forall|j: int|
                    0 <= j < conns.len() && j != i ==> after.pool[node@][j] == #[trigger] conns[j]
            &&& r is Err ==> after.pool == before.pool && after.active == before.active
        }),
{
    let before = old(pool)@;
    let conns = kept_with(before, node@);
    let idle = before.config.idle_timeout_secs;
    let after = final(pool)@;
    lemma_first_free(conns, now, idle, 0);
    assert(conns == connections_with(before, node@));
    assert(r is Err <==> before.breakers.dom().contains(node@) && has_to_wait(
        before.breakers[node@],
        now,
    ));
    if r is Ok && r->Ok_0 is Reuse {
        let i = first_reusable(conns, now, idle, 0)->0;
        assert(is_free(conns[i], now, idle));
        assert(after.pool[node@].len() == conns.len());
        assert(after.pool[node@][i].in_use);
        assert(forall|j: int|
            0 <= j < conns.len() && j != i ==> after.pool[node@][j] == #[trigger] conns[j]);
    }
}

/// A connection that was made is the active one with its peer, under its identifier, as good as
/// new, and is told of.
pub proof fn lemma_established(
    pool: &mut OptimizedConnectionPool,
    node: NodeId,
    connection_id: &str,
    peer_address: &str,
    latency_ms: u64,
    now: u64,
    r: Vec<ConnectionEvent>,
    other: Seq<u8>,
)
    requires
        call_ensures(
            OptimizedConnectionPool::established,
            (pool, node, connection_id, peer_address, latency_ms, now),
            r,
        ),
        old(pool)@.stats.connections_created < u64::MAX,
        old(pool)@.stats.active_connections < u32::MAX,
    ensures
        ({
            let before = old(pool)@;
            let after = final(pool)@;
            &&& after.active.dom().contains(node@)
            &&& after.active[node@].connection_id@ == connection_id@
            &&& after.active[node@].peer_address@ == peer_address@
            &&& after.active[node@].latency_ms == latency_ms
            &&& after.active[node@].connected_at == now
            &&& other != node@ ==> after.active.dom().contains(other)
                == before.active.dom().contains(other)
            &&& other != node@ && before.active.dom().contains(other) ==> after.active[other]
                == before.active[other]
            &&& after.pool == before.pool
            &&& after.stats.connections_created == before.stats.connections_created + 1
            &&& after.stats.active_connections == before.stats.active_connections + 1
            &&& r@.len() > 0
            &&& r@.last() == (ConnectionEvent::Connected { node_id: node, latency_ms })
        }),
{
}

/// What a connection that is used no more leaves: a kept one under its identifier is free, and
/// where there is none the active one is kept from then on, free, and active no more.
pub proof fn lemma_release(
    pool: &mut OptimizedConnectionPool,
    node: &NodeId,
    connection_id: &str,
    now: u64,
)
    requires
        call_ensures(
            OptimizedConnectionPool::release_connection,
            (pool, node, connection_id, now),
            (),
        ),
        old(pool)@.stats.pooled_connections < u32::MAX,
    ensures
        ({
            let before = old(pool)@;
            let after = final(pool)@;
            let conns = connections_with(before, node@);
            let named = exists|i: int|
                0 <= i < conns.len() && (#[trigger] conns[i]).info.connection_id@
                    == connection_id@;
            &&& named ==> exists|i: int|
                0 <= i < conns.len() && (#[trigger] conns[i]).info.connection_id@
                    == connection_id@ && after.pool[node@].len() == conns.len()
                    && !after.pool[node@][i].in_use && after.pool[node@][i].info.last_used == now
                    && forall|j: int|
                    0 <= j < conns.len() && j != i ==> after.pool[node@][j] == #[trigger] conns[j]
            &&& named ==> after.active == before.active
            &&& !named && before.active.dom().contains(node@) ==> {
                &&& !after.active.dom().contains(node@)
                &&& after.pool[node@].len() == conns.len() + 1
                &&& after.pool[node@].drop_last() == conns
                &&& after.pool[node@].last().info == before.active[node@]
                &&& !after.pool[node@].last().in_use
            }
            &&& !named && !before.active.dom().contains(node@) ==> after == before
        }),
{
    let before = old(pool)@;
    let conns = kept_with(before, node@);
    lemma_named(conns, connection_id@, 0);
    if first_named(conns, connection_id@, 0) is None && before.active.dom().contains(node@) {
        assert(final(pool)@.pool[node@].drop_last() =~= conns);
    }
}

/// The first connection under an identifier is found.
proof fn lemma_named(conns: Seq<PooledConnection>, id: Seq<char>, from: int)
    requires
        0 <= from,
    ensures
        match first_named(conns, id, from) {
            Some(i) => from <= i < conns.len() && conns[i].info.connection_id@ == id,
            None => forall|i: int|
                from <= i < conns.len() ==> (#[trigger] conns[i]).info.connection_id@ != id,
        },
    decreases conns.len() - from,
{
    if from < conns.len() {
        lemma_named(conns, id, from + 1);
    }
}

/// A peer is counted as failed, and with as many failures in a row as the configuration says it
/// is left alone.
pub proof fn lemma_connection_failed(
    pool: &mut OptimizedConnectionPool,
    node: &NodeId,
    now: u64,
    r: bool,
)
    requires
        call_ensures(OptimizedConnectionPool::connection_failed, (pool, node, now), r),
        old(pool)@.stats.connections_failed < u64::MAX,
        old(pool)@.breakers.dom().contains(node@) ==> old(pool)@.breakers[node@].failure_count
            < u32::MAX,
    ensures
        ({
            let before = old(pool)@;
            let after = final(pool)@;
            let failures = if before.breakers.dom().contains(node@) {
                before.breakers[node@].failure_count as int
            } else {
                0
            };
            &&& after.breakers.dom().contains(node@)
            &&& after.breakers[node@].failure_count == failures + 1
            &&& after.breakers[node@].last_failure_time == Some(now)
            &&& !before.breakers.dom().contains(node@) ==> after.breakers[node@].failure_threshold
                == before.config.failure_threshold && after.breakers[node@].timeout_ms == (
            before.config.initial_retry_backoff_ms * 5) as u64 && (after.breakers[node@].state
                == CircuitState::Open <==> before.config.failure_threshold <= 1)
            &&& after.stats.connections_failed == before.stats.connections_failed + 1
            &&& after.pool == before.pool
            &&& after.active == before.active
        }),
{
}

/// A latency of up to five seconds is accepted as it was measured; more is refused, and so is
/// none.
pub proof fn lemma_latency(measured: Result<u64, String>, r: Result<u64, GuardianError>)
    requires
        call_ensures(check_latency, (measured,), r),
    ensures
        measured is Ok && measured->Ok_0 <= 5_000 ==> r == Ok::<u64, GuardianError>(
            measured->Ok_0,
        ),
        measured is Ok && measured->Ok_0 > 5_000 ==> r is Err,
        measured is Err ==> r is Err,
{
}

/// Numbers are written with the high byte first.
proof fn lemma_high_byte_first(n: nat, k: nat)
    requires
        k > 0,
    ensures
        big_endian(n, k).len() == k,
        big_endian(n, k)[k - 1] == (n % 256) as u8,
        big_endian(n, k).drop_last() == big_endian(n / 256, (k - 1) as nat),
    decreases k,
{
    if k > 1 {
        lemma_high_byte_first(n / 256, (k - 1) as nat);
    }
    assert(big_endian(n, k).drop_last() =~= big_endian(n / 256, (k - 1) as nat));
}

/// Bytes are read with the high byte first.
pub proof fn lemma_high_byte_is_read_first(a: u8, b: u8)
    ensures
        be_value(seq![a, b]) == a * 256 + b,
{
    let s = seq![a, b];
    assert(s.drop_last() =~= seq![a]);
    assert(seq![a].drop_last() =~= Seq::<u8>::empty());
    assert(be_value(seq![a]) == a) by {
        assert(be_value(Seq::<u8>::empty()) == 0);
    }
}

/// A greeting is the length of the version in two bytes, the version, the node and the time in
/// eight bytes, the high one first.
pub proof fn lemma_greeting(node: &NodeId, timestamp: u64, r: Vec<u8>)
    requires
        call_ensures(handshake_message, (node, timestamp), r),
    ensures
        r@.len() == 57,
        r@[0] == 0,
        r@[1] == 15,
        r@.subrange(2, 17) == utf8("guardian-db/1.0"@),
        r@.subrange(17, 49) == node@,
        be_value(r@.subrange(49, 57)) == timestamp,
        r@[56] == (timestamp % 256) as u8,
{
    crate::p2p::network::backend::connection_pool::lemma_version_bytes();
    let version = utf8("guardian-db/1.0"@);
    let time = big_endian(timestamp as nat, 8);
    crate::bytes::lemma_byte_range(8);
    assert(timestamp < crate::bytes::byte_range(8)) by {
        reveal_with_fuel(crate::bytes::byte_range, 9);
    }
    lemma_be_round_trip(timestamp as nat, 8);
    lemma_high_byte_first(15, 2);
    lemma_high_byte_first(0, 1);
    lemma_high_byte_first(timestamp as nat, 8);
    let size = big_endian(15, 2);
    assert(size[1] == 15);
    assert(size.drop_last()[0] == 0);
    assert(r@ == size + (version + node@ + time));
    assert(r@.subrange(2, 17) =~= version);
    assert(r@.subrange(17, 49) =~= node@);
    assert(r@.subrange(49, 57) =~= time);
    assert(r@[56] == time[7]);
}

/// An answer is taken exactly where it is long enough and holds the version and the node, a
/// valid key; the time that it tells is given back.
pub proof fn lemma_answer(response: &[u8], node: &NodeId, r: Result<u64, GuardianError>)
    requires
        call_ensures(check_response, (response, node), r),
    ensures
        r is Ok <==> response@.len() >= 55 && response@.subrange(0, 15) == utf8(
            "guardian-db/1.0"@,
        ) && response@.subrange(15, 47) == node@ && ed25519_is_key(node@),
        r is Ok ==> r->Ok_0 == be_value(response@.subrange(47, 55)) as u64,
{
    if response@.len() >= 55 {
        assert(response@.take(15) =~= response@.subrange(0, 15));
    }
}

/// A handshake without a direct address fails at once; one with an address begins with a
/// connection, goes on with the greeting once there is one, and ends where that fails.
pub proof fn lemma_handshake_begins(
    node: NodeId,
    has_address: bool,
    r: (Handshake, HandshakeAction),
)
    requires
        call_ensures(Handshake::start, (node, has_address), r),
    ensures
        r.0.node_id == node,
        has_address <==> r.1 is Connect,
        !has_address <==> r.1 is Failed,
{
}

} // verus!
