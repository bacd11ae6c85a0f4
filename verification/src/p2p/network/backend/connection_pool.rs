//! Connections to peers: which are used again, and when a peer is left alone.
//!
//! The network connects and measures; the state kept here decides what it is asked
//! to do and takes in what it reports. Times are nanoseconds on a clock that never
//! goes back.
use crate::bytes;
use crate::bytes::{be_value, big_endian};
use crate::crypto;
use crate::crypto::ed25519_is_key;
use crate::error::{outcome, Failure, GuardianError};
use crate::hexadecimal::hex_text;
use crate::idmap::{lists, IdMap};
use crate::ids;
use crate::ids::is_random_id;
use crate::p2p::node;
use crate::p2p::node::{keys, NodeId};
use crate::text;
use crate::text::decimal_text;
use vstd::prelude::*;

verus! {

/// How many successes close a half-open breaker.
pub const SUCCESSES_TO_CLOSE: u32 = 3;

/// The latency above which a connection is refused, in milliseconds.
pub const MAX_LATENCY_MS: u64 = 5_000;

/// The bandwidth that a new connection is expected to have, in bytes per second.
pub const INITIAL_BANDWIDTH: u64 = 10_000_000;

/// How good a connection is.
#[derive(Clone, Copy, PartialEq, Eq, Structural, Debug)]
pub enum ConnectionStatus {
    Healthy,
    Degraded,
    Unavailable,
    Disconnected,
    Failed,
}

/// What is known of a connection.
#[derive(Debug)]
pub struct ConnectionInfo {
    pub connection_id: String,
    pub peer_address: String,
    pub connected_at: u64,
    pub last_used: u64,
    pub operations_count: u64,
    pub latency_ms: u64,
    pub status: ConnectionStatus,
    pub priority: u8,
    pub bandwidth_bps: u64,
}

/// A connection that is kept to be used again.
#[derive(Debug)]
pub struct PooledConnection {
    pub info: ConnectionInfo,
    pub pooled_at: u64,
    pub reuse_count: u32,
    pub in_use: bool,
}

/// How connections are kept.
#[derive(Clone, Copy, PartialEq, Eq, Structural, Debug)]
pub struct PoolConfig {
    pub max_connections_per_peer: u32,
    pub max_total_connections: u32,
    pub connection_timeout_ms: u64,
    pub idle_timeout_secs: u64,
    pub health_check_interval_secs: u64,
    pub max_retry_attempts: u32,
    pub initial_retry_backoff_ms: u64,
    /// How many failures open a breaker.
    pub failure_threshold: u32,
    pub enable_intelligent_load_balancing: bool,
}

impl Default for PoolConfig {
    fn default() -> (r: PoolConfig)
        ensures
            r == (PoolConfig {
                max_connections_per_peer: 8,
                max_total_connections: 1_000,
                connection_timeout_ms: 10_000,
                idle_timeout_secs: 300,
                health_check_interval_secs: 30,
                max_retry_attempts: 3,
                initial_retry_backoff_ms: 1_000,
                failure_threshold: 5,
                enable_intelligent_load_balancing: true,
            }),
    {
        PoolConfig {
            max_connections_per_peer: 8,
            max_total_connections: 1_000,
            connection_timeout_ms: 10_000,
            idle_timeout_secs: 300,
            health_check_interval_secs: 30,
            max_retry_attempts: 3,
            initial_retry_backoff_ms: 1_000,
            failure_threshold: 5,
            enable_intelligent_load_balancing: true,
        }
    }
}

/// How many connections there are and were.
#[derive(Clone, Copy, PartialEq, Eq, Structural, Debug)]
pub struct PoolStats {
    pub active_connections: u32,
    pub pooled_connections: u32,
    pub connections_created: u64,
    pub connections_reused: u64,
    pub connections_failed: u64,
    pub connections_timeout: u64,
}

/// Whether a peer is connected to.
#[derive(Clone, Copy, PartialEq, Eq, Structural, Debug)]
pub enum CircuitState {
    /// It is.
    Closed,
    /// It is left alone.
    Open,
    /// It is tried again.
    HalfOpen,
}

/// Leaves a peer alone that failed too often.
#[derive(Clone, Copy, PartialEq, Eq, Structural, Debug)]
pub struct CircuitBreaker {
    pub state: CircuitState,
    pub failure_count: u32,
    pub failure_threshold: u32,
    pub last_failure_time: Option<u64>,
    pub timeout_ms: u64,
    pub success_count: u32,
}

/// Whether more than so many whole milliseconds have passed.
pub open spec fn millis_passed(now: u64, then: u64, limit_ms: u64) -> bool {
    now >= then && (now - then) / 1_000_000 > limit_ms
}

/// Whether a breaker lets a connection through.
pub open spec fn breaker_allows(b: CircuitBreaker, now: u64) -> bool {
    match b.state {
        CircuitState::Open => match b.last_failure_time {
            Some(then) => millis_passed(now, then, b.timeout_ms),
            None => false,
        },
        _ => true,
    }
}

/// A breaker once it was asked: an open one that lets a connection through is half open.
pub open spec fn breaker_asked(b: CircuitBreaker, now: u64) -> CircuitBreaker {
    if b.state is Open && breaker_allows(b, now) {
        CircuitBreaker { state: CircuitState::HalfOpen, ..b }
    } else {
        b
    }
}

/// A breaker once a connection was made.
pub open spec fn breaker_succeeded(b: CircuitBreaker) -> CircuitBreaker {
    let counted = CircuitBreaker { success_count: (b.success_count + 1) as u32, ..b };
    match b.state {
        CircuitState::HalfOpen => if counted.success_count >= SUCCESSES_TO_CLOSE {
            CircuitBreaker { state: CircuitState::Closed, failure_count: 0, ..counted }
        } else {
            counted
        },
        _ => CircuitBreaker { state: CircuitState::Closed, failure_count: 0, ..counted },
    }
}

/// A breaker once a connection failed.
pub open spec fn breaker_failed(b: CircuitBreaker, now: u64) -> CircuitBreaker {
    let counted = CircuitBreaker {
        failure_count: (b.failure_count + 1) as u32,
        last_failure_time: Some(now),
        success_count: 0,
        ..b
    };
    if counted.failure_count >= b.failure_threshold && b.state is Closed {
        CircuitBreaker { state: CircuitState::Open, ..counted }
    } else {
        counted
    }
}

impl Default for CircuitBreaker {
    fn default() -> (r: CircuitBreaker)
        ensures
            r == (CircuitBreaker {
                state: CircuitState::Closed,
                failure_count: 0,
                failure_threshold: 5,
                last_failure_time: None,
                timeout_ms: 30_000,
                success_count: 0,
            }),
    {
        CircuitBreaker {
            state: CircuitState::Closed,
            failure_count: 0,
            failure_threshold: 5,
            last_failure_time: None,
            timeout_ms: 30_000,
            success_count: 0,
        }
    }
}

impl CircuitBreaker {
    /// Whether a connection is let through; an open breaker that lets one through is half
    /// open then.
    pub fn check(&mut self, now: u64) -> (r: bool)
        ensures
            r == breaker_allows(*old(self), now),
            *final(self) == breaker_asked(*old(self), now),
    {
        match self.state {
            CircuitState::Open => match self.last_failure_time {
                Some(then) => if now >= then && (now - then) / 1_000_000 > self.timeout_ms {
                    self.state = CircuitState::HalfOpen;
                    true
                } else {
                    false
                },
                None => false,
            },
            _ => true,
        }
    }

    /// Takes in that a connection was made; tells whether that closed a half-open breaker.
    pub fn record_success(&mut self) -> (r: bool)
        requires
            old(self).success_count < u32::MAX,
        ensures
            *final(self) == breaker_succeeded(*old(self)),
            r == (old(self).state is HalfOpen && final(self).state is Closed),
    {
        self.success_count = self.success_count + 1;
        match self.state {
            CircuitState::HalfOpen => if self.success_count >= SUCCESSES_TO_CLOSE {
                self.state = CircuitState::Closed;
                self.failure_count = 0;
                true
            } else {
                false
            },
            _ => {
                self.state = CircuitState::Closed;
                self.failure_count = 0;
                false
            },
        }
    }

    /// Takes in that a connection failed; tells whether that opened the breaker.
    pub fn record_failure(&mut self, now: u64) -> (r: bool)
        requires
            old(self).failure_count < u32::MAX,
        ensures
            *final(self) == breaker_failed(*old(self), now),
            r == (!(old(self).state is Open) && final(self).state is Open),
    {
        self.failure_count = self.failure_count + 1;
        self.last_failure_time = Some(now);
        self.success_count = 0;
        match self.state {
            CircuitState::Closed => if self.failure_count >= self.failure_threshold {
                self.state = CircuitState::Open;
                true
            } else {
                false
            },
            _ => false,
        }
    }
}

/// A breaker once connections failed at some times, one after another.
pub open spec fn after_failures(b: CircuitBreaker, times: Seq<u64>) -> CircuitBreaker
    decreases times.len(),
{
    if times.len() == 0 {
        b
    } else {
        breaker_failed(after_failures(b, times.drop_last()), times.last())
    }
}

/// A closed breaker without failures is opened by exactly as many failures in a row as its
/// threshold says, and stays open with more of them.
pub proof fn lemma_failures_open(b: CircuitBreaker, times: Seq<u64>)
    requires
        b.state is Closed,
        b.failure_count == 0,
        b.failure_threshold > 0,
        times.len() < u32::MAX,
    ensures
        after_failures(b, times).failure_count == times.len(),
        after_failures(b, times).failure_threshold == b.failure_threshold,
        after_failures(b, times).state is Open <==> times.len() >= b.failure_threshold,
        after_failures(b, times).state is Closed <==> times.len() < b.failure_threshold,
        times.len() > 0 ==> after_failures(b, times).last_failure_time == Some(times.last()),
    decreases times.len(),
{
    if times.len() > 0 {
        lemma_failures_open(b, times.drop_last());
    }
}

/// An open breaker lets nothing through until its time is over, and is half open once it
/// did; three successes then close it, and fewer do not.
pub proof fn lemma_recovery(b: CircuitBreaker, now: u64)
    requires
        b.state is Open,
        b.last_failure_time is Some,
        b.success_count == 0,
    ensures
        !millis_passed(now, b.last_failure_time->0, b.timeout_ms) ==> !breaker_allows(b, now)
            && breaker_asked(b, now) == b,
        millis_passed(now, b.last_failure_time->0, b.timeout_ms) ==> breaker_allows(b, now)
            && breaker_asked(b, now).state is HalfOpen && ({
            let once = breaker_succeeded(breaker_asked(b, now));
            let twice = breaker_succeeded(once);
            let thrice = breaker_succeeded(twice);
            once.state is HalfOpen && twice.state is HalfOpen && thrice.state is Closed
                && thrice.failure_count == 0
        }),
{
}

/// One success closes a breaker that was closed, and clears its failures: only failures in
/// a row count.
pub proof fn lemma_success_clears(b: CircuitBreaker)
    requires
        b.state is Closed,
    ensures
        breaker_succeeded(b).state is Closed,
        breaker_succeeded(b).failure_count == 0,
{
}

/// The version of the protocol that a connection begins with.
pub const PROTOCOL_VERSION: &'static str = "guardian-db/1.0";

/// What both ends say at last.
pub const CONFIRMATION: &'static str = "HANDSHAKE_OK";

/// The size of the largest answer to a greeting, in bytes.
pub const MAX_RESPONSE_SIZE: u64 = 1_024;

/// How far two clocks may be apart before that is worth a warning, in seconds.
pub const MAX_CLOCK_SKEW: u64 = 300;

/// The body of a greeting: the version, a node and a time.
pub open spec fn greeting_body(node: Seq<u8>, timestamp: u64) -> Seq<u8> {
    bytes::utf8(PROTOCOL_VERSION@) + node + big_endian(timestamp as nat, 8)
}

/// A greeting: the length of the version in two bytes, then the body.
pub open spec fn greeting(node: Seq<u8>, timestamp: u64) -> Seq<u8> {
    big_endian(15, 2) + greeting_body(node, timestamp)
}

/// The version takes fifteen bytes.
pub proof fn lemma_version_bytes()
    ensures
        bytes::utf8(PROTOCOL_VERSION@).len() == 15,
{
    reveal_strlit("guardian-db/1.0");
    let v = PROTOCOL_VERSION@;
    assert(v.len() == 15);
    assert(vstd::utf8::is_ascii_chars(v));
    vstd::utf8::is_ascii_chars_encode_utf8(v);
}

/// The greeting that a connection to a node begins with.
pub fn handshake_message(node_id: &NodeId, timestamp: u64) -> (r: Vec<u8>)
    ensures
        r@ == greeting(node_id@, timestamp),
{
    let version: &[u8] = PROTOCOL_VERSION.as_bytes();
    proof {
        lemma_version_bytes();
    }
    let mut message: Vec<u8> = bytes::to_big_endian(version.len() as u64, 2);
    message.extend_from_slice(version);
    message.extend_from_slice(&node_id.bytes);
    let time: Vec<u8> = bytes::to_big_endian(timestamp, 8);
    message.extend_from_slice(time.as_slice());
    assert(message@ =~= greeting(node_id@, timestamp));
    message
}

/// The length of an answer to a greeting, from the two bytes before it.
pub fn response_length(prefix: &[u8; 2]) -> (r: Result<usize, GuardianError>)
    ensures
        outcome(r) == if be_value(prefix@) == 0 || be_value(prefix@) > MAX_RESPONSE_SIZE {
            Err::<usize, Failure>(Failure::Other("Invalid response size"@))
        } else {
            Ok(be_value(prefix@) as usize)
        },
{
    let length: u64 = bytes::from_big_endian(prefix);
    if length == 0 || length > MAX_RESPONSE_SIZE {
        return Err(GuardianError::Other(text::owned("Invalid response size")));
    }
    Ok(length as usize)
}

/// Whether an answer to a greeting was taken as it must be: it has the version, the node
/// that was greeted, and a time, which is given back.
pub open spec fn response_checked(
    response: Seq<u8>,
    node: Seq<u8>,
    r: Result<u64, Failure>,
) -> bool {
    if response.len() < 55 {
        r == Err::<u64, Failure>(Failure::Other("Response too small"@))
    } else if response.take(15) != bytes::utf8(PROTOCOL_VERSION@) {
        r == Err::<u64, Failure>(Failure::Other("Incompatible protocol version"@))
    } else if !ed25519_is_key(response.subrange(15, 47)) {
        r is Err && exists|detail: Seq<char>|
            r->Err_0 == Failure::Other(#[trigger] ("Failed to convert NodeId: "@ + detail))
    } else if response.subrange(15, 47) != node {
        r == Err::<u64, Failure>(
            Failure::Other(
                "NodeId mismatch: expected "@ + hex_text(node) + ", received "@ + hex_text(
                    response.subrange(15, 47),
                ),
            ),
        )
    } else {
        r == Ok::<u64, Failure>(be_value(response.subrange(47, 55)) as u64)
    }
}

/// Checks an answer to a greeting; gives the time that it tells.
pub fn check_response(response: &[u8], node_id: &NodeId) -> (r: Result<u64, GuardianError>)
    ensures
        response_checked(response@, node_id@, outcome(r)),
{
    if response.len() < 55 {
        return Err(GuardianError::Other(text::owned("Response too small")));
    }
    let version: Vec<u8> = bytes::slice(response, 0, 15);
    assert(version@ =~= response@.take(15));
    if !bytes::same_bytes(version.as_slice(), PROTOCOL_VERSION.as_bytes()) {
        return Err(GuardianError::Other(text::owned("Incompatible protocol version")));
    }
    let key: Vec<u8> = bytes::slice(response, 15, 47);
    match bytes::array32(key.as_slice()) {
        None => Err(GuardianError::Other(text::owned("Invalid NodeId received"))),
        Some(received) => match crypto::check_public_key(&received) {
            Err(detail) => {
                let words: String = text::join2("Failed to convert NodeId: ", detail.as_str());
                assert(words@ == "Failed to convert NodeId: "@ + detail@);
                Err(GuardianError::Other(words))
            },
            Ok(_) => {
                let other = NodeId { bytes: received };
                if !other.same(node_id) {
                    let expected: String = node_id.render();
                    let got: String = other.render();
                    let mut words: String = text::join3(
                        "NodeId mismatch: expected ",
                        expected.as_str(),
                        ", received ",
                    );
                    words.append(got.as_str());
                    return Err(GuardianError::Other(words));
                }
                let time: Vec<u8> = bytes::slice(response, 47, 55);
                Ok(bytes::from_big_endian(time.as_slice()))
            },
        },
    }
}

/// Whether the times of two clocks are near enough not to warn.
pub fn clocks_agree(current_time: u64, peer_timestamp: u64) -> (r: bool)
    ensures
        r == (-MAX_CLOCK_SKEW <= current_time - peer_timestamp <= MAX_CLOCK_SKEW),
{
    if current_time >= peer_timestamp {
        current_time - peer_timestamp <= MAX_CLOCK_SKEW
    } else {
        peer_timestamp - current_time <= MAX_CLOCK_SKEW
    }
}

/// Checks what the other end says at last.
pub fn check_confirmation(confirmation: &[u8]) -> (r: Result<(), GuardianError>)
    ensures
        outcome(r) == if confirmation@ == bytes::utf8(CONFIRMATION@) {
            Ok::<(), Failure>(())
        } else {
            Err(Failure::Other("Invalid handshake confirmation"@))
        },
{
    if bytes::same_bytes(confirmation, CONFIRMATION.as_bytes()) {
        Ok(())
    } else {
        Err(GuardianError::Other(text::owned("Invalid handshake confirmation")))
    }
}

/// How long it is waited for a connection that a handshake is made on, in milliseconds.
pub const CONNECT_WAIT_MS: u64 = 5_000;

/// How long it is waited for an answer, and for its length, in milliseconds.
pub const RESPONSE_WAIT_MS: u64 = 3_000;

/// How long it is waited for what the other end says at last, in milliseconds.
pub const CONFIRMATION_WAIT_MS: u64 = 2_000;

/// How far a handshake is.
#[derive(Clone, Copy, PartialEq, Eq, Structural, Debug)]
pub enum HandshakePhase {
    /// The connection is being made.
    Connecting,
    /// The greeting is being sent.
    Greeting,
    /// The length of the answer is awaited.
    Length,
    /// The answer is awaited.
    Response,
    /// The confirmation is being sent.
    Confirming,
    /// The confirmation of the other end is awaited.
    Confirmation,
    /// The handshake is over.
    Over,
}

/// What the network reports during a handshake.
#[derive(Debug)]
pub enum HandshakeEvent {
    /// The connection was made.
    Connected,
    /// It could not be made, for a reason.
    ConnectFailed(String),
    /// It was not made in time.
    ConnectTimedOut,
    /// What was to be sent was sent.
    Written,
    /// It could not be sent, for a reason.
    WriteFailed(String),
    /// What was awaited came; where less came, the rest is zero.
    Read(Vec<u8>),
    /// It did not come in time, as words tell.
    ReadTimedOut(String),
}

/// What the network is asked to do during a handshake.
#[derive(Debug)]
pub enum HandshakeAction {
    /// Connect to the first direct address within a time.
    Connect { wait_ms: u64 },
    /// Send bytes.
    Write(Vec<u8>),
    /// Send bytes; the clocks of both ends agree, or that is worth a warning.
    Confirm { message: Vec<u8>, agree: bool },
    /// Wait for bytes within a time.
    Read { length: usize, wait_ms: u64 },
    /// The handshake succeeded.
    Done,
    /// It failed.
    Failed(GuardianError),
    /// The report was not waited for.
    Ignore,
}

/// A handshake with a node.
#[derive(Debug)]
pub struct Handshake {
    pub node_id: NodeId,
    pub phase: HandshakePhase,
}

/// Whether an action ends a handshake with a failure.
pub open spec fn fails_with(after: Handshake, action: HandshakeAction, failure: Failure) -> bool {
    after.phase is Over && action is Failed && action->Failed_0@ == failure
}

/// Whether a step of a handshake is the one that a report calls for, at a time in seconds.
pub open spec fn handshake_step(
    before: Handshake,
    event: HandshakeEvent,
    now: u64,
    after: Handshake,
    action: HandshakeAction,
) -> bool {
    &&& after.node_id == before.node_id
    &&& match (before.phase, event) {
        (HandshakePhase::Connecting, HandshakeEvent::Connected) => after.phase is Greeting
            && action is Write && action->Write_0@ == greeting(before.node_id@, now),
        (HandshakePhase::Connecting, HandshakeEvent::ConnectFailed(detail)) => fails_with(
            after,
            action,
            Failure::Other("TCP connection failure: "@ + detail@),
        ),
        (HandshakePhase::Connecting, HandshakeEvent::ConnectTimedOut) => fails_with(
            after,
            action,
            Failure::Other("TCP connection timeout"@),
        ),
        (HandshakePhase::Greeting, HandshakeEvent::Written) => after.phase is Length && action == (
        HandshakeAction::Read { length: 2, wait_ms: RESPONSE_WAIT_MS }),
        (HandshakePhase::Greeting, HandshakeEvent::WriteFailed(detail)) => fails_with(
            after,
            action,
            Failure::Other("Failed to send handshake: "@ + detail@),
        ),
        (HandshakePhase::Length, HandshakeEvent::Read(prefix)) => if prefix@.len() != 2 {
            after == before && action is Ignore
        } else if be_value(prefix@) == 0 || be_value(prefix@) > MAX_RESPONSE_SIZE {
            fails_with(after, action, Failure::Other("Invalid response size"@))
        } else {
            after.phase is Response && action == (HandshakeAction::Read {
                length: be_value(prefix@) as usize,
                wait_ms: RESPONSE_WAIT_MS,
            })
        },
        (HandshakePhase::Length, HandshakeEvent::ReadTimedOut(detail)) => fails_with(
            after,
            action,
            Failure::Other("Timeout reading response: "@ + detail@),
        ),
        (HandshakePhase::Response, HandshakeEvent::Read(response)) => exists|r: Result<
            u64,
            Failure,
        >|
            #[trigger] response_checked(response@, before.node_id@, r) && match r {
                Ok(peer_timestamp) => after.phase is Confirming && action is Confirm
                    && action->message@ == bytes::utf8(CONFIRMATION@) && action->agree == (
                -MAX_CLOCK_SKEW <= now - peer_timestamp <= MAX_CLOCK_SKEW),
                Err(failure) => fails_with(after, action, failure),
            },
        (HandshakePhase::Response, HandshakeEvent::ReadTimedOut(detail)) => fails_with(
            after,
            action,
            Failure::Other("Timeout reading response data: "@ + detail@),
        ),
        (HandshakePhase::Confirming, HandshakeEvent::Written) => after.phase is Confirmation
            && action == (HandshakeAction::Read { length: 12, wait_ms: CONFIRMATION_WAIT_MS }),
        (HandshakePhase::Confirming, HandshakeEvent::WriteFailed(detail)) => fails_with(
            after,
            action,
            Failure::Other("Failed to send confirmation: "@ + detail@),
        ),
        (HandshakePhase::Confirmation, HandshakeEvent::Read(confirmation)) => if confirmation@
            == bytes::utf8(CONFIRMATION@) {
            after.phase is Over && action is Done
        } else {
            fails_with(after, action, Failure::Other("Invalid handshake confirmation"@))
        },
        (HandshakePhase::Confirmation, HandshakeEvent::ReadTimedOut(detail)) => fails_with(
            after,
            action,
            Failure::Other("Timeout on final confirmation: "@ + detail@),
        ),
        _ => after == before && action is Ignore,
    }
}

impl Handshake {
    /// A handshake with a node at its start. `has_address` tells whether the node has a
    /// direct address, which it cannot do without.
    pub fn start(node_id: NodeId, has_address: bool) -> (r: (Handshake, HandshakeAction))
        ensures
            r.0.node_id == node_id,
            if has_address {
                r.0.phase is Connecting && r.1 == (HandshakeAction::Connect {
                    wait_ms: CONNECT_WAIT_MS,
                })
            } else {
                fails_with(
                    r.0,
                    r.1,
                    Failure::Other("No direct address available for handshake"@),
                )
            },
    {
        if has_address {
            (
                Handshake { node_id, phase: HandshakePhase::Connecting },
                HandshakeAction::Connect { wait_ms: CONNECT_WAIT_MS },
            )
        } else {
            (
                Handshake { node_id, phase: HandshakePhase::Over },
                HandshakeAction::Failed(
                    GuardianError::Other(
                        text::owned("No direct address available for handshake"),
                    ),
                ),
            )
        }
    }

    /// Ends the handshake with an error.
    fn fail(&mut self, error: GuardianError) -> (r: HandshakeAction)
        ensures
            final(self).node_id == old(self).node_id,
            fails_with(*final(self), r, error@),
    {
        self.phase = HandshakePhase::Over;
        HandshakeAction::Failed(error)
    }

    /// Ends the handshake for a reason.
    fn fail_because(&mut self, words: &str, detail: String) -> (r: HandshakeAction)
        ensures
            final(self).node_id == old(self).node_id,
            fails_with(*final(self), r, Failure::Other(words@ + detail@)),
    {
        let message: String = text::join2(words, detail.as_str());
        self.fail(GuardianError::Other(message))
    }

    /// Takes in what came while something was awaited.
    fn received(&mut self, data: Vec<u8>, now: u64) -> (r: HandshakeAction)
        ensures
            handshake_step(*old(self), HandshakeEvent::Read(data), now, *final(self), r),
    {
        match self.phase {
            HandshakePhase::Length => {
                if data.len() != 2 {
                    return HandshakeAction::Ignore;
                }
                let prefix: [u8; 2] = [data[0], data[1]];
                assert(prefix@ =~= data@);
                match response_length(&prefix) {
                    Ok(length) => {
                        self.phase = HandshakePhase::Response;
                        HandshakeAction::Read { length, wait_ms: RESPONSE_WAIT_MS }
                    },
                    Err(e) => self.fail(e),
                }
            },
            HandshakePhase::Response => {
                let checked: Result<u64, GuardianError> = check_response(
                    data.as_slice(),
                    &self.node_id,
                );
                assert(response_checked(data@, self.node_id@, outcome(checked)));
                match checked {
                    Ok(peer_timestamp) => {
                        self.phase = HandshakePhase::Confirming;
                        HandshakeAction::Confirm {
                            message: bytes::to_vec(CONFIRMATION.as_bytes()),
                            agree: clocks_agree(now, peer_timestamp),
                        }
                    },
                    Err(e) => self.fail(e),
                }
            },
            HandshakePhase::Confirmation => match check_confirmation(data.as_slice()) {
                Ok(_) => {
                    self.phase = HandshakePhase::Over;
                    HandshakeAction::Done
                },
                Err(e) => self.fail(e),
            },
            _ => HandshakeAction::Ignore,
        }
    }

    /// Takes in a report; tells what the network is asked to do next.
    pub fn step(&mut self, event: HandshakeEvent, now: u64) -> (r: HandshakeAction)
        ensures
            handshake_step(*old(self), event, now, *final(self), r),
    {
        match event {
            HandshakeEvent::Connected => match self.phase {
                HandshakePhase::Connecting => {
                    self.phase = HandshakePhase::Greeting;
                    HandshakeAction::Write(handshake_message(&self.node_id, now))
                },
                _ => HandshakeAction::Ignore,
            },
            HandshakeEvent::ConnectFailed(detail) => match self.phase {
                HandshakePhase::Connecting => self.fail_because("TCP connection failure: ", detail),
                _ => HandshakeAction::Ignore,
            },
            HandshakeEvent::ConnectTimedOut => match self.phase {
                HandshakePhase::Connecting => self.fail(
                    GuardianError::Other(text::owned("TCP connection timeout")),
                ),
                _ => HandshakeAction::Ignore,
            },
            HandshakeEvent::Written => match self.phase {
                HandshakePhase::Greeting => {
                    self.phase = HandshakePhase::Length;
                    HandshakeAction::Read { length: 2, wait_ms: RESPONSE_WAIT_MS }
                },
                HandshakePhase::Confirming => {
                    self.phase = HandshakePhase::Confirmation;
                    HandshakeAction::Read { length: 12, wait_ms: CONFIRMATION_WAIT_MS }
                },
                _ => HandshakeAction::Ignore,
            },
            HandshakeEvent::WriteFailed(detail) => match self.phase {
                HandshakePhase::Greeting => self.fail_because(
                    "Failed to send handshake: ",
                    detail,
                ),
                HandshakePhase::Confirming => self.fail_because(
                    "Failed to send confirmation: ",
                    detail,
                ),
                _ => HandshakeAction::Ignore,
            },
            HandshakeEvent::Read(data) => self.received(data, now),
            HandshakeEvent::ReadTimedOut(detail) => match self.phase {
                HandshakePhase::Length => self.fail_because("Timeout reading response: ", detail),
                HandshakePhase::Response => self.fail_because(
                    "Timeout reading response data: ",
                    detail,
                ),
                HandshakePhase::Confirmation => self.fail_because(
                    "Timeout on final confirmation: ",
                    detail,
                ),
                _ => HandshakeAction::Ignore,
            },
        }
    }
}

/// How many steps of a handshake are left at most.
pub open spec fn steps_left(phase: HandshakePhase) -> int {
    match phase {
        HandshakePhase::Connecting => 6,
        HandshakePhase::Greeting => 5,
        HandshakePhase::Length => 4,
        HandshakePhase::Response => 3,
        HandshakePhase::Confirming => 2,
        HandshakePhase::Confirmation => 1,
        HandshakePhase::Over => 0,
    }
}

/// A handshake comes nearer to its end with every report that it waited for; it is over
/// exactly when it succeeded or failed, and once over it stays so.
pub proof fn lemma_handshake_ends(
    before: Handshake,
    event: HandshakeEvent,
    now: u64,
    after: Handshake,
    action: HandshakeAction,
)
    requires
        handshake_step(before, event, now, after, action),
    ensures
        action is Ignore <==> after.phase == before.phase,
        !(action is Ignore) ==> steps_left(after.phase) < steps_left(before.phase),
        !(action is Ignore) ==> (after.phase is Over <==> action is Done || action is Failed),
        before.phase is Over ==> action is Ignore,
{
}

/// A handshake with a node goes on to its confirmation only on an answer that holds the
/// version of the protocol and that node, and succeeds only from there, on the
/// confirmation of the other end.
pub proof fn lemma_handshake_is_with_the_node(
    before: Handshake,
    event: HandshakeEvent,
    now: u64,
    after: Handshake,
    action: HandshakeAction,
)
    requires
        handshake_step(before, event, now, after, action),
        after.phase != before.phase,
    ensures
        after.phase is Confirming ==> before.phase is Response && event is Read
            && event->Read_0@.len() >= 55 && event->Read_0@.take(15) == bytes::utf8(
            PROTOCOL_VERSION@,
        ) && event->Read_0@.subrange(15, 47) == before.node_id@,
        after.phase is Confirmation ==> before.phase is Confirming,
        action is Done ==> before.phase is Confirmation && event is Read && event->Read_0@
            == bytes::utf8(CONFIRMATION@),
{
}

/// The confirmation takes twelve bytes, as many as are awaited.
pub proof fn lemma_confirmation_bytes()
    ensures
        bytes::utf8(CONFIRMATION@).len() == 12,
{
    reveal_strlit("HANDSHAKE_OK");
    let v = CONFIRMATION@;
    assert(v.len() == 12);
    assert(vstd::utf8::is_ascii_chars(v));
    vstd::utf8::is_ascii_chars_encode_utf8(v);
}

/// An answer made of a node's own greeting is taken, and gives the time that it was made
/// with; for no other node is it.
pub proof fn lemma_greeting_is_taken(node: NodeId, other: NodeId, timestamp: u64, r: Result<
    u64,
    Failure,
>)
    requires
        ed25519_is_key(node@),
        response_checked(greeting_body(node@, timestamp), other@, r),
    ensures
        r is Ok <==> other@ == node@,
        r is Ok ==> r->Ok_0 == timestamp,
{
    lemma_version_bytes();
    bytes::lemma_byte_range(8);
    bytes::lemma_be_round_trip(timestamp as nat, 8);
    let body = greeting_body(node@, timestamp);
    assert(body.take(15) =~= bytes::utf8(PROTOCOL_VERSION@));
    assert(body.subrange(15, 47) =~= node@);
    assert(body.subrange(47, 55) =~= big_endian(timestamp as nat, 8));
}

/// Judges the latency that was measured to a peer, or that none could be.
pub fn check_latency(measured: Result<u64, String>) -> (r: Result<u64, GuardianError>)
    ensures
        outcome(r) == match measured {
            Ok(latency_ms) => if latency_ms > MAX_LATENCY_MS {
                Err::<u64, Failure>(
                    Failure::Other(
                        "Unacceptable latency: "@ + decimal_text(latency_ms as nat) + ".00ms"@,
                    ),
                )
            } else {
                Ok(latency_ms)
            },
            Err(detail) => Err(Failure::Other("Connection failure: "@ + detail@)),
        },
{
    match measured {
        Ok(latency_ms) => {
            if latency_ms > MAX_LATENCY_MS {
                let value: String = text::decimal(latency_ms);
                return Err(
                    GuardianError::Other(
                        text::join3("Unacceptable latency: ", value.as_str(), ".00ms"),
                    ),
                );
            }
            Ok(latency_ms)
        },
        Err(detail) => Err(
            GuardianError::Other(text::join2("Connection failure: ", detail.as_str())),
        ),
    }
}

/// What is told of connections.
#[derive(Debug)]
pub enum ConnectionEvent {
    Connected { node_id: NodeId, latency_ms: u64 },
    Disconnected { node_id: NodeId, reason: String },
    Degraded { node_id: NodeId },
    Recovered { node_id: NodeId },
    CircuitBreakerOpen { node_id: NodeId },
    CircuitBreakerClosed { node_id: NodeId },
}

/// The connections of a node.
#[derive(Debug)]
pub struct OptimizedConnectionPool {
    active_connections: IdMap<ConnectionInfo>,
    connection_pool: IdMap<Vec<PooledConnection>>,
    circuit_breakers: IdMap<CircuitBreaker>,
    unhealthy_peers: IdMap<u64>,
    pool_config: PoolConfig,
    stats: PoolStats,
}

/// The model of the connections of a node.
#[verifier::ext_equal]
pub struct PoolModel {
    pub active: Map<Seq<u8>, ConnectionInfo>,
    pub pool: Map<Seq<u8>, Seq<PooledConnection>>,
    pub breakers: Map<Seq<u8>, CircuitBreaker>,
    pub unhealthy: Map<Seq<u8>, u64>,
    pub config: PoolConfig,
    pub stats: PoolStats,
}

/// Connections by peer.
pub open spec fn pooled(m: Map<Seq<u8>, Vec<PooledConnection>>) -> Map<
    Seq<u8>,
    Seq<PooledConnection>,
> {
    m.map_values(|v: Vec<PooledConnection>| v@)
}

impl View for OptimizedConnectionPool {
    type V = PoolModel;

    closed spec fn view(&self) -> PoolModel {
        PoolModel {
            active: self.active_connections@,
            pool: pooled(self.connection_pool@),
            breakers: self.circuit_breakers@,
            unhealthy: self.unhealthy_peers@,
            config: self.pool_config,
            stats: self.stats,
        }
    }
}

/// How many whole seconds have passed.
pub open spec fn seconds_passed(now: u64, then: u64) -> int {
    if now >= then {
        (now - then) / 1_000_000_000
    } else {
        0
    }
}

/// Whether a connection can be used again: nobody uses it, it is healthy, and it was not
/// idle for too long.
pub open spec fn reusable(c: PooledConnection, now: u64, idle_timeout_secs: u64) -> bool {
    &&& !c.in_use
    &&& c.info.status is Healthy
    &&& seconds_passed(now, c.info.last_used) < idle_timeout_secs
}

/// The first connection from one on that can be used again.
pub open spec fn first_reusable(
    conns: Seq<PooledConnection>,
    now: u64,
    idle_timeout_secs: u64,
    from: int,
) -> Option<int>
    decreases conns.len() - from,
{
    if from < 0 || from >= conns.len() {
        None
    } else if reusable(conns[from], now, idle_timeout_secs) {
        Some(from)
    } else {
        first_reusable(conns, now, idle_timeout_secs, from + 1)
    }
}

/// The first connection from one on that has an identifier.
pub open spec fn first_named(conns: Seq<PooledConnection>, id: Seq<char>, from: int) -> Option<int>
    decreases conns.len() - from,
{
    if from < 0 || from >= conns.len() {
        None
    } else if conns[from].info.connection_id@ == id {
        Some(from)
    } else {
        first_named(conns, id, from + 1)
    }
}

/// A connection that is used again.
pub open spec fn reused(c: PooledConnection, now: u64) -> PooledConnection {
    PooledConnection {
        in_use: true,
        reuse_count: (c.reuse_count + 1) as u32,
        info: ConnectionInfo { last_used: now, ..c.info },
        ..c
    }
}

/// A connection that is used no more.
pub open spec fn released(c: PooledConnection, now: u64) -> PooledConnection {
    PooledConnection {
        in_use: false,
        info: ConnectionInfo { last_used: now, ..c.info },
        ..c
    }
}

/// The connections that are kept with a peer.
pub open spec fn kept_with(m: PoolModel, node: Seq<u8>) -> Seq<PooledConnection> {
    if m.pool.dom().contains(node) {
        m.pool[node]
    } else {
        Seq::empty()
    }
}

/// Whether every count that a peer's connections may raise can go up by one.
pub open spec fn room(m: PoolModel, node: Seq<u8>) -> bool {
    &&& m.stats.active_connections < u32::MAX
    &&& m.stats.pooled_connections < u32::MAX
    &&& m.stats.connections_created < u64::MAX
    &&& m.stats.connections_reused < u64::MAX
    &&& m.stats.connections_failed < u64::MAX
    &&& m.stats.connections_timeout < u64::MAX
    &&& m.config.initial_retry_backoff_ms * 5 <= u64::MAX
    &&& breaker_of(m, node).failure_count < u32::MAX
    &&& breaker_of(m, node).success_count < u32::MAX
    &&& forall|i: int|
        0 <= i < kept_with(m, node).len() ==> (#[trigger] kept_with(m, node)[i]).reuse_count
            < u32::MAX
}

/// The breaker of a peer, or a new one.
pub open spec fn breaker_of(m: PoolModel, node: Seq<u8>) -> CircuitBreaker {
    if m.breakers.dom().contains(node) {
        m.breakers[node]
    } else {
        CircuitBreaker {
            state: CircuitState::Closed,
            failure_count: 0,
            failure_threshold: m.config.failure_threshold,
            last_failure_time: None,
            timeout_ms: (m.config.initial_retry_backoff_ms * 5) as u64,
            success_count: 0,
        }
    }
}

/// Whether a connection to a peer is let through.
pub open spec fn allowed(m: PoolModel, node: Seq<u8>, now: u64) -> bool {
    m.breakers.dom().contains(node) ==> breaker_allows(m.breakers[node], now)
}

/// The connections once it was asked whether one to a peer is let through.
pub open spec fn asked(m: PoolModel, node: Seq<u8>, now: u64) -> PoolModel {
    if m.breakers.dom().contains(node) {
        PoolModel {
            breakers: m.breakers.insert(node, breaker_asked(m.breakers[node], now)),
            ..m
        }
    } else {
        m
    }
}

/// The connections once the breaker of a peer has taken in a success; without a breaker
/// there is nothing to take in.
pub open spec fn succeeded(m: PoolModel, node: Seq<u8>) -> PoolModel {
    if m.breakers.dom().contains(node) {
        PoolModel {
            breakers: m.breakers.insert(node, breaker_succeeded(m.breakers[node])),
            ..m
        }
    } else {
        m
    }
}

/// The connections once the breaker of a peer has taken in a failure.
pub open spec fn failed(m: PoolModel, node: Seq<u8>, now: u64) -> PoolModel {
    PoolModel { breakers: m.breakers.insert(node, breaker_failed(breaker_of(m, node), now)), ..m }
}

/// The connections once a kept one with a peer is used again.
pub open spec fn with_reuse(m: PoolModel, node: Seq<u8>, i: int, now: u64) -> PoolModel {
    PoolModel {
        pool: m.pool.insert(node, m.pool[node].update(i, reused(m.pool[node][i], now))),
        stats: PoolStats {
            connections_reused: (m.stats.connections_reused + 1) as u64,
            ..m.stats
        },
        ..m
    }
}

/// How a connection to a peer is got.
#[derive(Debug)]
pub enum PoolStep {
    /// A kept one is used again.
    Reuse(String),
    /// A new one is to be made under an identifier.
    Establish(String),
}

/// Whether an identifier is one for a new connection to a peer.
pub open spec fn is_connection_id(id: Seq<char>, node: Seq<u8>) -> bool {
    exists|tail: Seq<char>|
        is_random_id(tail) && id == #[trigger] ("conn_"@ + hex_text(node) + "_"@ + tail)
}

impl OptimizedConnectionPool {
    /// A node without connections.
    pub fn new(pool_config: PoolConfig) -> (r: OptimizedConnectionPool)
        ensures
            r@ == (PoolModel {
                active: Map::empty(),
                pool: Map::empty(),
                breakers: Map::empty(),
                unhealthy: Map::empty(),
                config: pool_config,
                stats: PoolStats {
                    active_connections: 0,
                    pooled_connections: 0,
                    connections_created: 0,
                    connections_reused: 0,
                    connections_failed: 0,
                    connections_timeout: 0,
                },
            }),
    {
        let r = OptimizedConnectionPool {
            active_connections: IdMap::new(),
            connection_pool: IdMap::new(),
            circuit_breakers: IdMap::new(),
            unhealthy_peers: IdMap::new(),
            pool_config,
            stats: PoolStats {
                active_connections: 0,
                pooled_connections: 0,
                connections_created: 0,
                connections_reused: 0,
                connections_failed: 0,
                connections_timeout: 0,
            },
        };
        assert(r@.pool =~= Map::<Seq<u8>, Seq<PooledConnection>>::empty());
        r
    }

    /// Whether a connection to a peer is let through.
    pub fn check_circuit_breaker(&mut self, node_id: &NodeId, now: u64) -> (r: bool)
        ensures
            r == allowed(old(self)@, node_id@, now),
            final(self)@ == asked(old(self)@, node_id@, now),
    {
        match self.circuit_breakers.remove(&node_id.bytes) {
            Some(mut breaker) => {
                let r: bool = breaker.check(now);
                self.circuit_breakers.insert(node_id.bytes, breaker);
                assert(self@.breakers =~= asked(old(self)@, node_id@, now).breakers);
                r
            },
            None => {
                assert(self@.breakers =~= old(self)@.breakers);
                true
            },
        }
    }

    /// Uses a kept connection to a peer again, if there is one that can be.
    pub fn try_reuse_connection(&mut self, node_id: &NodeId, now: u64) -> (r: Option<String>)
        requires
            old(self)@.stats.connections_reused < u64::MAX,
            forall|i: int|
                0 <= i < kept_with(old(self)@, node_id@).len() ==> (#[trigger] kept_with(
                    old(self)@,
                    node_id@,
                )[i]).reuse_count < u32::MAX,
        ensures
            match first_reusable(
                kept_with(old(self)@, node_id@),
                now,
                old(self)@.config.idle_timeout_secs,
                0,
            ) {
                Some(i) => r is Some && r->0@ == old(self)@.pool[node_id@][i].info.connection_id@
                    && final(self)@ == with_reuse(old(self)@, node_id@, i, now),
                None => r is None && final(self)@ == old(self)@,
            },
    {
        let ghost before = self@;
        let idle: u64 = self.pool_config.idle_timeout_secs;
        match self.connection_pool.remove(&node_id.bytes) {
            None => {
                assert(self@.pool =~= before.pool);
                None
            },
            Some(mut conns) => {
                let ghost had = conns@;
                assert(had == kept_with(before, node_id@));
                let mut i: usize = 0;
                let mut found: bool = false;
                while i < conns.len() && !found
                    invariant
                        i <= conns@.len(),
                        conns@ == had,
                        found ==> i < conns@.len() && reusable(conns@[i as int], now, idle),
                        first_reusable(had, now, idle, 0) == first_reusable(
                            had,
                            now,
                            idle,
                            i as int,
                        ),
                    decreases conns@.len() - i + if found {
                        0int
                    } else {
                        1int
                    },
                {
                    let c: &PooledConnection = &conns[i];
                    let free: bool = !c.in_use && match c.info.status {
                        ConnectionStatus::Healthy => true,
                        _ => false,
                    };
                    let age: u64 = if now >= c.info.last_used {
                        (now - c.info.last_used) / 1_000_000_000
                    } else {
                        0
                    };
                    if free && age < idle {
                        found = true;
                    } else {
                        i += 1;
                    }
                }
                if found {
                    let id: String = conns[i].info.connection_id.clone();
                    assert(kept_with(before, node_id@)[i as int].reuse_count < u32::MAX);
                    let count: u32 = conns[i].reuse_count;
                    conns[i].in_use = true;
                    conns[i].reuse_count = count + 1;
                    conns[i].info.last_used = now;
                    assert(conns@ =~= had.update(i as int, reused(had[i as int], now)));
                    self.connection_pool.insert(node_id.bytes, conns);
                    self.stats.connections_reused = self.stats.connections_reused + 1;
                    assert(self@.pool =~= with_reuse(before, node_id@, i as int, now).pool);
                    Some(id)
                } else {
                    self.connection_pool.insert(node_id.bytes, conns);
                    assert(self@.pool =~= before.pool);
                    None
                }
            },
        }
    }

    /// An identifier for a new connection to a peer.
    pub fn new_connection_id(node_id: &NodeId) -> (r: String)
        ensures
            is_connection_id(r@, node_id@),
    {
        let node: String = node_id.render();
        let tail: String = ids::random_id();
        let mut id: String = text::join3("conn_", node.as_str(), "_");
        id.append(tail.as_str());
        assert(id@ == "conn_"@ + hex_text(node_id@) + "_"@ + tail@);
        id
    }

    /// Gets a connection to a peer: a kept one that can be used again, or a new one that is
    /// to be made. A peer that failed too often is left alone.
    pub fn get_connection(&mut self, node_id: &NodeId, now: u64) -> (r: Result<
        PoolStep,
        GuardianError,
    >)
        requires
            old(self)@.stats.connections_reused < u64::MAX,
            forall|i: int|
                0 <= i < kept_with(old(self)@, node_id@).len() ==> (#[trigger] kept_with(
                    old(self)@,
                    node_id@,
                )[i]).reuse_count < u32::MAX,
        ensures
            if !allowed(old(self)@, node_id@, now) {
                outcome(r) == Err::<PoolStep, Failure>(
                    Failure::Other("Circuit breaker open for node "@ + hex_text(node_id@)),
                ) && final(self)@ == asked(old(self)@, node_id@, now)
            } else {
                match first_reusable(
                    kept_with(old(self)@, node_id@),
                    now,
                    old(self)@.config.idle_timeout_secs,
                    0,
                ) {
                    Some(i) => r is Ok && (r->Ok_0 matches PoolStep::Reuse(id) && id@ == old(self)@.pool[node_id@][i].info.connection_id@) && final(self)@ == with_reuse(
                        asked(old(self)@, node_id@, now),
                        node_id@,
                        i,
                        now,
                    ),
                    None => r is Ok && (r->Ok_0 matches PoolStep::Establish(id)
                        && is_connection_id(id@, node_id@)) && final(self)@ == asked(
                        old(self)@,
                        node_id@,
                        now,
                    ),
                }
            },
    {
        if !self.check_circuit_breaker(node_id, now) {
            let node: String = node_id.render();
            return Err(
                GuardianError::Other(text::join2("Circuit breaker open for node ", node.as_str())),
            );
        }
        assert(kept_with(self@, node_id@) == kept_with(old(self)@, node_id@));
        match self.try_reuse_connection(node_id, now) {
            Some(id) => Ok(PoolStep::Reuse(id)),
            None => Ok(PoolStep::Establish(OptimizedConnectionPool::new_connection_id(node_id))),
        }
    }

    /// Lets the breaker of a peer take in a success; tells whether that closed it.
    pub fn record_success(&mut self, node_id: &NodeId) -> (r: bool)
        requires
            old(self)@.breakers.dom().contains(node_id@) ==> old(self)@.breakers[node_id@].success_count < u32::MAX,
        ensures
            final(self)@ == succeeded(old(self)@, node_id@),
            r == (old(self)@.breakers.dom().contains(node_id@)
                && old(self)@.breakers[node_id@].state is HalfOpen
                && final(self)@.breakers[node_id@].state is Closed),
    {
        match self.circuit_breakers.remove(&node_id.bytes) {
            Some(mut breaker) => {
                let r: bool = breaker.record_success();
                self.circuit_breakers.insert(node_id.bytes, breaker);
                assert(self@.breakers =~= succeeded(old(self)@, node_id@).breakers);
                r
            },
            None => {
                assert(self@.breakers =~= old(self)@.breakers);
                false
            },
        }
    }

    /// Lets the breaker of a peer, a new one if it has none, take in a failure; tells
    /// whether that opened it.
    pub fn record_failure(&mut self, node_id: &NodeId, now: u64) -> (r: bool)
        requires
            breaker_of(old(self)@, node_id@).failure_count < u32::MAX,
            old(self)@.config.initial_retry_backoff_ms * 5 <= u64::MAX,
        ensures
            final(self)@ == failed(old(self)@, node_id@, now),
            r == (!(breaker_of(old(self)@, node_id@).state is Open)
                && final(self)@.breakers[node_id@].state is Open),
    {
        let mut breaker: CircuitBreaker = match self.circuit_breakers.remove(&node_id.bytes) {
            Some(breaker) => breaker,
            None => CircuitBreaker {
                state: CircuitState::Closed,
                failure_count: 0,
                failure_threshold: self.pool_config.failure_threshold,
                last_failure_time: None,
                timeout_ms: self.pool_config.initial_retry_backoff_ms * 5,
                success_count: 0,
            },
        };
        assert(breaker == breaker_of(old(self)@, node_id@));
        let r: bool = breaker.record_failure(now);
        self.circuit_breakers.insert(node_id.bytes, breaker);
        assert(self@.breakers =~= failed(old(self)@, node_id@, now).breakers);
        r
    }
}

/// Whether a connection is a new one under an identifier.
pub open spec fn is_new(
    info: ConnectionInfo,
    connection_id: Seq<char>,
    peer_address: Seq<char>,
    latency_ms: u64,
    now: u64,
) -> bool {
    &&& info.connection_id@ == connection_id
    &&& info.peer_address@ == peer_address
    &&& info.connected_at == now
    &&& info.last_used == now
    &&& info.operations_count == 0
    &&& info.latency_ms == latency_ms
    &&& info.status is Healthy
    &&& info.priority == 5
    &&& info.bandwidth_bps == INITIAL_BANDWIDTH
}

/// The connections once one with a peer is used no more. A kept one is free again; if there
/// is none under its identifier, the active one is kept from now on.
pub open spec fn after_release(
    m: PoolModel,
    node: Seq<u8>,
    connection_id: Seq<char>,
    now: u64,
) -> PoolModel {
    match first_named(kept_with(m, node), connection_id, 0) {
        Some(i) => PoolModel {
            pool: m.pool.insert(node, m.pool[node].update(i, released(m.pool[node][i], now))),
            ..m
        },
        None => if m.active.dom().contains(node) {
            PoolModel {
                active: m.active.remove(node),
                pool: m.pool.insert(
                    node,
                    kept_with(m, node).push(
                        PooledConnection {
                            info: m.active[node],
                            pooled_at: now,
                            reuse_count: 0,
                            in_use: false,
                        },
                    ),
                ),
                stats: PoolStats {
                    active_connections: if m.stats.active_connections > 0 {
                        (m.stats.active_connections - 1) as u32
                    } else {
                        0
                    },
                    pooled_connections: (m.stats.pooled_connections + 1) as u32,
                    ..m.stats
                },
                ..m
            }
        } else {
            m
        },
    }
}

impl OptimizedConnectionPool {
    /// Takes in that a new connection to a peer was made; gives what is to be told.
    pub fn established(
        &mut self,
        node_id: NodeId,
        connection_id: &str,
        peer_address: &str,
        latency_ms: u64,
        now: u64,
    ) -> (r: Vec<ConnectionEvent>)
        requires
            old(self)@.stats.connections_created < u64::MAX,
            old(self)@.stats.active_connections < u32::MAX,
            old(self)@.breakers.dom().contains(node_id@)
                ==> old(self)@.breakers[node_id@].success_count < u32::MAX,
        ensures
            exists|info: ConnectionInfo|
                is_new(info, connection_id@, peer_address@, latency_ms, now) && final(self)@
                    == succeeded(
                    (PoolModel {
                        active: #[trigger] old(self)@.active.insert(node_id@, info),
                        stats: PoolStats {
                            connections_created: (old(self)@.stats.connections_created + 1) as u64,
                            active_connections: (old(self)@.stats.active_connections + 1) as u32,
                            ..old(self)@.stats
                        },
                        ..old(self)@
                    }),
                    node_id@,
                ),
            r@ == if old(self)@.breakers.dom().contains(node_id@)
                && old(self)@.breakers[node_id@].state is HalfOpen
                && final(self)@.breakers[node_id@].state is Closed {
                seq![
                    ConnectionEvent::CircuitBreakerClosed { node_id },
                    ConnectionEvent::Connected { node_id, latency_ms },
                ]
            } else {
                seq![ConnectionEvent::Connected { node_id, latency_ms }]
            },
    {
        let info = ConnectionInfo {
            connection_id: text::owned(connection_id),
            peer_address: text::owned(peer_address),
            connected_at: now,
            last_used: now,
            operations_count: 0,
            latency_ms,
            status: ConnectionStatus::Healthy,
            priority: 5,
            bandwidth_bps: INITIAL_BANDWIDTH,
        };
        let ghost added = info;
        assert(is_new(added, connection_id@, peer_address@, latency_ms, now));
        self.active_connections.insert(node_id.bytes, info);
        self.stats.connections_created = self.stats.connections_created + 1;
        self.stats.active_connections = self.stats.active_connections + 1;
        let ghost middle = self@;
        assert(middle =~= (PoolModel {
            active: old(self)@.active.insert(node_id@, added),
            stats: PoolStats {
                connections_created: (old(self)@.stats.connections_created + 1) as u64,
                active_connections: (old(self)@.stats.active_connections + 1) as u32,
                ..old(self)@.stats
            },
            ..old(self)@
        }));
        let mut events: Vec<ConnectionEvent> = Vec::new();
        if self.record_success(&node_id) {
            events.push(ConnectionEvent::CircuitBreakerClosed { node_id });
        }
        events.push(ConnectionEvent::Connected { node_id, latency_ms });
        events
    }

    /// Takes in that a new connection to a peer could not be made; tells whether the peer
    /// is left alone from now on.
    pub fn connection_failed(&mut self, node_id: &NodeId, now: u64) -> (r: bool)
        requires
            breaker_of(old(self)@, node_id@).failure_count < u32::MAX,
            old(self)@.config.initial_retry_backoff_ms * 5 <= u64::MAX,
            old(self)@.stats.connections_failed < u64::MAX,
        ensures
            final(self)@ == (PoolModel {
                stats: PoolStats {
                    connections_failed: (old(self)@.stats.connections_failed + 1) as u64,
                    ..old(self)@.stats
                },
                ..failed(old(self)@, node_id@, now)
            }),
            r == (!(breaker_of(old(self)@, node_id@).state is Open)
                && final(self)@.breakers[node_id@].state is Open),
    {
        let r: bool = self.record_failure(node_id, now);
        self.stats.connections_failed = self.stats.connections_failed + 1;
        r
    }

    /// Takes in that a new connection to a peer took too long; tells whether the peer is
    /// left alone from now on, and gives the error.
    pub fn connection_timed_out(&mut self, node_id: &NodeId, now: u64) -> (r: (
        bool,
        GuardianError,
    ))
        requires
            breaker_of(old(self)@, node_id@).failure_count < u32::MAX,
            old(self)@.config.initial_retry_backoff_ms * 5 <= u64::MAX,
            old(self)@.stats.connections_timeout < u64::MAX,
        ensures
            final(self)@ == (PoolModel {
                stats: PoolStats {
                    connections_timeout: (old(self)@.stats.connections_timeout + 1) as u64,
                    ..old(self)@.stats
                },
                ..failed(old(self)@, node_id@, now)
            }),
            r.0 == (!(breaker_of(old(self)@, node_id@).state is Open)
                && final(self)@.breakers[node_id@].state is Open),
            r.1@ == Failure::Other(
                "Timeout connecting to node "@ + hex_text(node_id@) + " ("@ + decimal_text(
                    old(self)@.config.connection_timeout_ms as nat,
                ) + "ms)"@,
            ),
    {
        let opened: bool = self.record_failure(node_id, now);
        self.stats.connections_timeout = self.stats.connections_timeout + 1;
        let node: String = node_id.render();
        let limit: String = text::decimal(self.pool_config.connection_timeout_ms);
        let error: GuardianError = GuardianError::Other(
            text::join5(
                "Timeout connecting to node ",
                node.as_str(),
                " (",
                limit.as_str(),
                "ms)",
            ),
        );
        (opened, error)
    }

    /// Takes in that a connection with a peer is used no more.
    pub fn release_connection(&mut self, node_id: &NodeId, connection_id: &str, now: u64)
        requires
            old(self)@.stats.pooled_connections < u32::MAX,
        ensures
            final(self)@ == after_release(old(self)@, node_id@, connection_id@, now),
    {
        let ghost before = self@;
        let is_kept: bool = self.connection_pool.contains(&node_id.bytes);
        let mut conns: Vec<PooledConnection> = match self.connection_pool.remove(&node_id.bytes) {
            Some(conns) => conns,
            None => Vec::new(),
        };
        let ghost had = conns@;
        assert(had =~= kept_with(before, node_id@));
        let mut i: usize = 0;
        let mut found: bool = false;
        while i < conns.len() && !found
            invariant
                i <= conns@.len(),
                conns@ == had,
                found ==> i < conns@.len() && conns@[i as int].info.connection_id@
                    == connection_id@,
                first_named(had, connection_id@, 0) == first_named(had, connection_id@, i as int),
            decreases conns@.len() - i + if found {
                0int
            } else {
                1int
            },
        {
            if text::same_text(conns[i].info.connection_id.as_str(), connection_id) {
                found = true;
            } else {
                i += 1;
            }
        }
        if found {
            conns[i].in_use = false;
            conns[i].info.last_used = now;
            assert(conns@ =~= had.update(i as int, released(had[i as int], now)));
            self.connection_pool.insert(node_id.bytes, conns);
            assert(self@.pool =~= after_release(before, node_id@, connection_id@, now).pool);
        } else {
            match self.active_connections.remove(&node_id.bytes) {
                Some(info) => {
                    conns.push(
                        PooledConnection { info, pooled_at: now, reuse_count: 0, in_use: false },
                    );
                    if self.stats.active_connections > 0 {
                        self.stats.active_connections = self.stats.active_connections - 1;
                    }
                    self.stats.pooled_connections = self.stats.pooled_connections + 1;
                    self.connection_pool.insert(node_id.bytes, conns);
                    assert(self@.pool =~= after_release(
                        before,
                        node_id@,
                        connection_id@,
                        now,
                    ).pool);
                },
                None => {
                    assert(self@.active =~= before.active);
                    if is_kept {
                        self.connection_pool.insert(node_id.bytes, conns);
                    }
                    assert(self@.pool =~= before.pool);
                },
            }
        }
    }

    /// Takes in whether the health of a peer was found to be low; gives what is to be told.
    pub fn note_health(&mut self, node_id: NodeId, low: bool, now: u64) -> (r: Option<
        ConnectionEvent,
    >)
        ensures
            r == if low {
                Some(ConnectionEvent::Degraded { node_id })
            } else if old(self)@.unhealthy.dom().contains(node_id@) {
                Some(ConnectionEvent::Recovered { node_id })
            } else {
                None
            },
            final(self)@ == (PoolModel {
                unhealthy: if low {
                    old(self)@.unhealthy.insert(node_id@, now)
                } else {
                    old(self)@.unhealthy.remove(node_id@)
                },
                ..old(self)@
            }),
    {
        if low {
            self.unhealthy_peers.insert(node_id.bytes, now);
            Some(ConnectionEvent::Degraded { node_id })
        } else {
            match self.unhealthy_peers.remove(&node_id.bytes) {
                Some(_) => Some(ConnectionEvent::Recovered { node_id }),
                None => None,
            }
        }
    }

    /// The peers to which connections are kept.
    pub fn pooled_peers(&self) -> (r: Vec<NodeId>)
        ensures
            lists(keys(r@), self@.pool, |c: Seq<PooledConnection>| true),
    {
        let ghost any = |c: Vec<PooledConnection>| true;
        let chosen = |c: &Vec<PooledConnection>| -> (b: bool)
            ensures
                b,
            { true };
        let ids: Vec<[u8; 32]> = self.connection_pool.listed(chosen, Ghost(any));
        let r: Vec<NodeId> = node::of_ids(&ids);
        assert(self@.pool.dom() =~= self.connection_pool@.dom());
        r
    }

    /// The connections that are kept to a peer.
    pub fn pooled_connections(&self, node_id: &NodeId) -> (r: &[PooledConnection])
        ensures
            r@ == kept_with(self@, node_id@),
    {
        match self.connection_pool.get(&node_id.bytes) {
            Some(connections) => connections.as_slice(),
            None => &[],
        }
    }

    /// Whether every count that a peer's connections may raise can go up by one.
    pub fn has_room(&self, node_id: &NodeId) -> (r: bool)
        ensures
            r == room(self@, node_id@),
    {
        let breaker_ok: bool = match self.circuit_breakers.get(&node_id.bytes) {
            Some(b) => b.failure_count < u32::MAX && b.success_count < u32::MAX,
            None => true,
        };
        let kept: &[PooledConnection] = self.pooled_connections(node_id);
        let mut i: usize = 0;
        while i < kept.len()
            invariant
                i <= kept@.len(),
                kept@ == kept_with(self@, node_id@),
                forall|j: int|
                    0 <= j < i ==> (#[trigger] kept_with(self@, node_id@)[j]).reuse_count < u32::MAX,
            decreases kept@.len() - i,
        {
            if kept[i].reuse_count == u32::MAX {
                assert(kept_with(self@, node_id@)[i as int].reuse_count == u32::MAX);
                return false;
            }
            i += 1;
        }
        let s: &PoolStats = &self.stats;
        breaker_ok && s.active_connections < u32::MAX && s.pooled_connections < u32::MAX
            && s.connections_created < u64::MAX && s.connections_reused < u64::MAX
            && s.connections_failed < u64::MAX && s.connections_timeout < u64::MAX
            && self.pool_config.initial_retry_backoff_ms <= u64::MAX / 5
    }

    /// The counts of connections.
    pub fn get_stats(&self) -> (r: PoolStats)
        ensures
            r == self@.stats,
    {
        self.stats
    }
}

/// What is found under an identifier is a connection with it.
proof fn lemma_first_named(conns: Seq<PooledConnection>, id: Seq<char>, from: int)
    requires
        0 <= from,
    ensures
        first_named(conns, id, from) matches Some(i) ==> from <= i < conns.len()
            && conns[i].info.connection_id@ == id,
    decreases conns.len() - from,
{
    if from < conns.len() && conns[from].info.connection_id@ != id {
        lemma_first_named(conns, id, from + 1);
    }
}

/// If a connection can be used again, the first one that can is found.
proof fn lemma_first_reusable(
    conns: Seq<PooledConnection>,
    now: u64,
    idle_timeout_secs: u64,
    from: int,
    i: int,
)
    requires
        0 <= from <= i < conns.len(),
        reusable(conns[i], now, idle_timeout_secs),
    ensures
        first_reusable(conns, now, idle_timeout_secs, from) is Some,
    decreases i - from,
{
    if !reusable(conns[from], now, idle_timeout_secs) {
        lemma_first_reusable(conns, now, idle_timeout_secs, from + 1, i);
    }
}

/// A healthy kept connection that was released can be used again until it was idle for too
/// long.
pub proof fn lemma_released_is_reusable(
    m: PoolModel,
    node: Seq<u8>,
    connection_id: Seq<char>,
    released_at: u64,
    now: u64,
)
    requires
        first_named(kept_with(m, node), connection_id, 0) matches Some(i) && kept_with(
            m,
            node,
        )[i].info.status is Healthy,
        seconds_passed(now, released_at) < m.config.idle_timeout_secs,
    ensures
        first_reusable(
            kept_with(after_release(m, node, connection_id, released_at), node),
            now,
            m.config.idle_timeout_secs,
            0,
        ) is Some,
{
    let i = first_named(kept_with(m, node), connection_id, 0)->0;
    lemma_first_named(kept_with(m, node), connection_id, 0);
    let after = kept_with(after_release(m, node, connection_id, released_at), node);
    assert(after[i] == released(m.pool[node][i], released_at));
    lemma_first_reusable(after, now, m.config.idle_timeout_secs, 0, i);
}

} // verus!
