//! Channels between two peers over a topic that only they use.
//!
//! The network publishes, subscribes and waits; the state kept here decides what
//! it is asked to do and takes in what it reports. Times are nanoseconds on a
//! clock that never goes back.
use crate::bytes;
use crate::bytes::{bytes_lt, utf8, utf8_text};
use crate::crypto;
use crate::crypto::blake3_digest;
use crate::entries::{with_entry, TextMap};
use crate::error::{outcome, Failure, GuardianError};
use crate::hexadecimal;
use crate::hexadecimal::{hex_text, short_text};
use crate::idmap::{lists, IdMap};
use crate::p2p::events::{new_event_payload, EventPubSubPayload};
use crate::p2p::messaging::{CONNECTION_TIMEOUT, HEARTBEAT_INTERVAL, MAX_MESSAGE_SIZE, PROTOCOL};
use crate::p2p::node;
use crate::p2p::node::{keys, removed, NodeId};
use crate::text;
use crate::text::{begins_with, decimal_text, pieces};
use vstd::prelude::*;

verus! {

/// How long an answer to a beacon is waited for, in nanoseconds.
pub const BEACON_TIMEOUT: u64 = 5_000_000_000;

/// How long a peer is in error before it is connected to again, in nanoseconds.
pub const RETRY_AFTER_ERROR: u64 = 30_000_000_000;

/// How long a peer is disconnected before it is connected to again, in nanoseconds.
pub const RETRY_AFTER_DISCONNECT: u64 = 60_000_000_000;

/// How long to wait between two looks for a peer, in nanoseconds.
pub const DISCOVERY_PAUSE: u64 = 500_000_000;

/// How long to wait between two looks for an answer to a beacon, in nanoseconds.
pub const BEACON_PAUSE: u64 = 200_000_000;

/// What a message on a channel is.
#[derive(Clone, Copy, PartialEq, Eq, Structural, Debug)]
pub enum MessageType {
    Data,
    Heartbeat,
    Ack,
}

/// A message on a channel.
#[derive(Debug)]
pub struct DirectChannelMessage {
    pub message_type: MessageType,
    pub payload: Vec<u8>,
    pub timestamp: u64,
    pub sender: String,
}

/// The model of a message.
#[verifier::ext_equal]
pub struct MessageModel {
    pub message_type: MessageType,
    pub payload: Seq<u8>,
    pub timestamp: u64,
    pub sender: Seq<char>,
}

impl View for DirectChannelMessage {
    type V = MessageModel;

    open spec fn view(&self) -> MessageModel {
        MessageModel {
            message_type: self.message_type,
            payload: self.payload@,
            timestamp: self.timestamp,
            sender: self.sender@,
        }
    }
}

/// How far the connection of a channel is.
#[derive(Debug)]
pub enum ConnectionStatus {
    Disconnected,
    Connecting,
    Connected,
    Error(String),
}

/// The model of a connection status.
pub enum StatusModel {
    Disconnected,
    Connecting,
    Connected,
    Error(Seq<char>),
}

impl View for ConnectionStatus {
    type V = StatusModel;

    open spec fn view(&self) -> StatusModel {
        match self {
            ConnectionStatus::Disconnected => StatusModel::Disconnected,
            ConnectionStatus::Connecting => StatusModel::Connecting,
            ConnectionStatus::Connected => StatusModel::Connected,
            ConnectionStatus::Error(e) => StatusModel::Error(e@),
        }
    }
}

/// The state of a channel.
#[derive(Debug)]
pub struct ChannelState {
    pub node_id: NodeId,
    pub topic: [u8; 32],
    pub connection_status: ConnectionStatus,
    pub last_activity: u64,
    pub message_count: u64,
    pub last_heartbeat: u64,
}

/// The model of a channel.
#[verifier::ext_equal]
pub struct ChannelModel {
    pub node: Seq<u8>,
    pub topic: Seq<u8>,
    pub status: StatusModel,
    pub last_activity: u64,
    pub message_count: u64,
    pub last_heartbeat: u64,
}

impl View for ChannelState {
    type V = ChannelModel;

    open spec fn view(&self) -> ChannelModel {
        ChannelModel {
            node: self.node_id@,
            topic: self.topic@,
            status: self.connection_status@,
            last_activity: self.last_activity,
            message_count: self.message_count,
            last_heartbeat: self.last_heartbeat,
        }
    }
}

/// What happens on channels.
#[derive(Debug)]
pub enum DirectChannelEvent {
    PeerConnected(NodeId),
    PeerDisconnected(NodeId),
    MessageReceived { peer: NodeId, payload: Vec<u8> },
    MessageSent { peer: NodeId, success: bool, error: Option<String> },
    HeartbeatReceived(NodeId),
    HeartbeatTimeout(NodeId),
}

/// How long ago something was.
pub open spec fn elapsed(now: u64, then: u64) -> int {
    if now >= then {
        now - then
    } else {
        0
    }
}

/// How long ago something was.
fn since(now: u64, then: u64) -> (r: u64)
    ensures
        r == elapsed(now, then),
{
    if now >= then {
        now - then
    } else {
        0
    }
}

/// Two nodes, the lower one first.
pub open spec fn in_order(a: Seq<u8>, b: Seq<u8>) -> (Seq<u8>, Seq<u8>) {
    if bytes_lt(a, b) {
        (a, b)
    } else {
        (b, a)
    }
}

/// The name of the topic that two nodes share.
pub open spec fn channel_topic_name(own: Seq<u8>, peer: Seq<u8>) -> Seq<char> {
    PROTOCOL@ + "/channel/"@ + hex_text(in_order(own, peer).0) + "/"@ + hex_text(
        in_order(own, peer).1,
    )
}

/// The identifier of the topic that two nodes share.
pub open spec fn channel_topic(own: Seq<u8>, peer: Seq<u8>) -> Seq<u8> {
    blake3_digest(utf8(channel_topic_name(own, peer)))
}

/// Both ends of a channel use the same topic.
pub proof fn lemma_channel_topic_symmetric(a: NodeId, b: NodeId)
    ensures
        channel_topic_name(a@, b@) == channel_topic_name(b@, a@),
        channel_topic(a@, b@) == channel_topic(b@, a@),
{
    bytes::lemma_bytes_lt_total(a@, b@);
    bytes::lemma_bytes_lt_total(b@, a@);
}

/// The name of a topic tells the two nodes that share it: another pair has another name, and
/// so a node has a name of its own for each peer.
pub proof fn lemma_channel_topic_tells_ends(a: NodeId, b: NodeId, c: NodeId, d: NodeId)
    requires
        channel_topic_name(a@, b@) == channel_topic_name(c@, d@),
    ensures
        (a@ == c@ && b@ == d@) || (a@ == d@ && b@ == c@),
        a@ == c@ ==> b@ == d@,
{
    lemma_topic_ends(a@, b@);
    lemma_topic_ends(c@, d@);
    hexadecimal::lemma_hex_round_trip(a@);
    hexadecimal::lemma_hex_round_trip(b@);
    hexadecimal::lemma_hex_round_trip(c@);
    hexadecimal::lemma_hex_round_trip(d@);
}

/// Where the two nodes stand in the name of their topic.
proof fn lemma_topic_ends(a: Seq<u8>, b: Seq<u8>)
    requires
        a.len() == 32,
        b.len() == 32,
    ensures
        ({
            let name = channel_topic_name(a, b);
            let n = (PROTOCOL@ + "/channel/"@).len() as int;
            &&& name.subrange(n, n + 64) == hex_text(in_order(a, b).0)
            &&& name.subrange(n + 65, n + 129) == hex_text(in_order(a, b).1)
        }),
{
    reveal_strlit("/");
    let name = channel_topic_name(a, b);
    let n = (PROTOCOL@ + "/channel/"@).len() as int;
    assert(name.subrange(n, n + 64) =~= hex_text(in_order(a, b).0));
    assert(name.subrange(n + 65, n + 129) =~= hex_text(in_order(a, b).1));
}

/// The identifier of the topic that two nodes share.
fn topic_between(own: &NodeId, peer: &NodeId) -> (r: [u8; 32])
    ensures
        r@ == channel_topic(own@, peer@),
{
    let mine: String = own.render();
    let other: String = peer.render();
    let name: String = if own.is_below(peer) {
        text::join5(PROTOCOL, "/channel/", mine.as_str(), "/", other.as_str())
    } else {
        text::join5(PROTOCOL, "/channel/", other.as_str(), "/", mine.as_str())
    };
    crypto::blake3(name.as_str().as_bytes())
}

/// The channels of a node.
#[derive(Debug)]
pub struct DirectChannel {
    channels: IdMap<ChannelState>,
    own_node_id: NodeId,
    running: bool,
    receiver_taken: bool,
}

/// The models of channels.
pub open spec fn channel_models(channels: Map<Seq<u8>, ChannelState>) -> Map<
    Seq<u8>,
    ChannelModel,
> {
    channels.map_values(|c: ChannelState| c@)
}

/// The peer that an event is about.
pub open spec fn peer_of(event: DirectChannelEvent) -> Seq<u8> {
    match event {
        DirectChannelEvent::PeerConnected(peer) => peer@,
        DirectChannelEvent::PeerDisconnected(peer) => peer@,
        DirectChannelEvent::MessageReceived { peer, payload } => peer@,
        DirectChannelEvent::MessageSent { peer, success, error } => peer@,
        DirectChannelEvent::HeartbeatReceived(peer) => peer@,
        DirectChannelEvent::HeartbeatTimeout(peer) => peer@,
    }
}

/// A channel once an event about its peer was taken in.
pub open spec fn channel_after(
    channel: ChannelModel,
    event: DirectChannelEvent,
    now: u64,
) -> ChannelModel {
    match event {
        DirectChannelEvent::PeerConnected(_) => ChannelModel {
            status: StatusModel::Connected,
            last_activity: now,
            last_heartbeat: now,
            ..channel
        },
        DirectChannelEvent::PeerDisconnected(_) => ChannelModel {
            status: StatusModel::Disconnected,
            ..channel
        },
        DirectChannelEvent::MessageReceived { peer, payload } => if payload@.len()
            > MAX_MESSAGE_SIZE {
            channel
        } else {
            ChannelModel {
                last_activity: now,
                message_count: (channel.message_count + 1) as u64,
                ..channel
            }
        },
        DirectChannelEvent::MessageSent { peer, success, error } => channel,
        DirectChannelEvent::HeartbeatReceived(_) => ChannelModel {
            last_activity: now,
            last_heartbeat: now,
            ..channel
        },
        DirectChannelEvent::HeartbeatTimeout(_) => ChannelModel {
            status: StatusModel::Error("Heartbeat timeout"@),
            ..channel
        },
    }
}

/// The channels once one of them was changed; a peer without a channel changes nothing.
pub open spec fn changed(
    channels: Map<Seq<u8>, ChannelModel>,
    peer: Seq<u8>,
    after: ChannelModel,
) -> Map<Seq<u8>, ChannelModel> {
    if channels.dom().contains(peer) {
        channels.insert(peer, after)
    } else {
        channels
    }
}

/// A channel that is about to be connected.
pub open spec fn connecting_channel(own: Seq<u8>, peer: Seq<u8>, now: u64) -> ChannelModel {
    ChannelModel {
        node: peer,
        topic: channel_topic(own, peer),
        status: StatusModel::Connecting,
        last_activity: now,
        message_count: 0,
        last_heartbeat: now,
    }
}

/// Whether a channel is due for a heartbeat.
pub open spec fn heartbeat_due(now: u64) -> spec_fn(ChannelState) -> bool {
    |c: ChannelState|
        c@.status is Connected && elapsed(now, c.last_heartbeat) > HEARTBEAT_INTERVAL
}

/// Whether a channel is due to be connected again.
pub open spec fn reconnect_due(now: u64) -> spec_fn(ChannelState) -> bool {
    |c: ChannelState|
        match c@.status {
            StatusModel::Error(_) => elapsed(now, c.last_activity) > RETRY_AFTER_ERROR,
            StatusModel::Disconnected => elapsed(now, c.last_activity) > RETRY_AFTER_DISCONNECT,
            _ => false,
        }
}

/// Whether a channel is connected.
pub open spec fn is_connected() -> spec_fn(ChannelState) -> bool {
    |c: ChannelState| c@.status is Connected
}

/// What is to be done so that a peer is connected.
#[derive(Debug)]
pub enum ConnectStep {
    /// Nothing: it is connected, or about to be.
    Done,
    /// The topic is to be subscribed to through the peer, and the peer looked for.
    Subscribe { topic: [u8; 32] },
}

impl DirectChannel {
    /// The channels by peer.
    pub closed spec fn states(self) -> Map<Seq<u8>, ChannelState> {
        self.channels@
    }

    /// The models of the channels by peer.
    pub open spec fn channels(self) -> Map<Seq<u8>, ChannelModel> {
        channel_models(self.states())
    }

    /// The node whose channels these are.
    pub closed spec fn own(self) -> Seq<u8> {
        self.own_node_id@
    }

    /// Whether events are processed.
    pub closed spec fn is_running(self) -> bool {
        self.running
    }

    /// Whether event processing was started once.
    pub closed spec fn was_started(self) -> bool {
        self.receiver_taken
    }

    /// A node without channels.
    pub fn new(own_node_id: NodeId) -> (r: DirectChannel)
        ensures
            r.own() == own_node_id@,
            r.channels() == Map::<Seq<u8>, ChannelModel>::empty(),
            !r.is_running(),
            !r.was_started(),
    {
        let r = DirectChannel {
            channels: IdMap::new(),
            own_node_id,
            running: false,
            receiver_taken: false,
        };
        assert(r.channels() =~= Map::<Seq<u8>, ChannelModel>::empty());
        r
    }

    /// The topic of the channel with a peer.
    pub fn get_channel_topic(&self, peer: NodeId) -> (r: [u8; 32])
        ensures
            r@ == channel_topic(self.own(), peer@),
    {
        topic_between(&self.own_node_id, &peer)
    }

    /// Starts event processing; tells whether the loops are to be spawned. Once
    /// stopped it cannot be started again.
    pub fn start(&mut self) -> (r: Result<bool, GuardianError>)
        ensures
            outcome(r) == if old(self).is_running() {
                Ok::<bool, Failure>(false)
            } else if old(self).was_started() {
                Err(Failure::Other("Event receiver already taken"@))
            } else {
                Ok(true)
            },
            final(self).is_running(),
            final(self).was_started() == (old(self).was_started() || !old(self).is_running()),
            final(self).channels() == old(self).channels(),
            final(self).own() == old(self).own(),
    {
        if self.running {
            return Ok(false);
        }
        self.running = true;
        if self.receiver_taken {
            return Err(GuardianError::Other(text::owned("Event receiver already taken")));
        }
        self.receiver_taken = true;
        Ok(true)
    }

    /// Puts a changed channel back.
    fn put(&mut self, peer: &NodeId, state: ChannelState)
        ensures
            final(self).channels() == old(self).channels().insert(peer@, state@),
            final(self).own() == old(self).own(),
            final(self).is_running() == old(self).is_running(),
            final(self).was_started() == old(self).was_started(),
    {
        self.channels.insert(peer.bytes, state);
        assert(self.channels() =~= old(self).channels().insert(peer@, state@));
    }

    /// Takes a channel out.
    fn take(&mut self, peer: &NodeId) -> (r: Option<ChannelState>)
        ensures
            final(self).channels() == old(self).channels().remove(peer@),
            final(self).own() == old(self).own(),
            final(self).is_running() == old(self).is_running(),
            final(self).was_started() == old(self).was_started(),
            match r {
                Some(c) => old(self).channels().dom().contains(peer@) && c@
                    == old(self).channels()[peer@],
                None => !old(self).channels().dom().contains(peer@),
            },
    {
        let r: Option<ChannelState> = self.channels.remove(&peer.bytes);
        assert(self.channels() =~= old(self).channels().remove(peer@));
        r
    }

    /// Takes in an event; gives what is to be emitted. A message that is too large is dropped.
    pub fn handle_event(&mut self, event: DirectChannelEvent, now: u64) -> (r: Option<
        EventPubSubPayload,
    >)
        requires
            event is MessageReceived && old(self).channels().dom().contains(peer_of(event))
                ==> old(self).channels()[peer_of(event)].message_count < u64::MAX,
        ensures
            match event {
                DirectChannelEvent::MessageReceived { peer, payload } => if payload@.len()
                    > MAX_MESSAGE_SIZE {
                    r is None
                } else {
                    r == Some(EventPubSubPayload { payload, peer })
                },
                _ => r is None,
            },
            final(self).channels() == changed(
                old(self).channels(),
                peer_of(event),
                channel_after(old(self).channels()[peer_of(event)], event, now),
            ),
            final(self).own() == old(self).own(),
            final(self).is_running() == old(self).is_running(),
            final(self).was_started() == old(self).was_started(),
    {
        let ghost before = self.channels();
        let ghost peer = peer_of(event);
        match event {
            DirectChannelEvent::MessageReceived { peer, payload } => {
                if payload.len() > MAX_MESSAGE_SIZE {
                    assert(self.channels() =~= changed(before, peer@, before[peer@]));
                    return None;
                }
                match self.take(&peer) {
                    Some(mut state) => {
                        state.last_activity = now;
                        state.message_count = state.message_count + 1;
                        self.put(&peer, state);
                    },
                    None => {},
                }
                assert(self.channels() =~= changed(
                    before,
                    peer@,
                    channel_after(before[peer@], event, now),
                ));
                Some(new_event_payload(payload, peer))
            },
            DirectChannelEvent::PeerConnected(peer) => {
                match self.take(&peer) {
                    Some(mut state) => {
                        state.connection_status = ConnectionStatus::Connected;
                        state.last_activity = now;
                        state.last_heartbeat = now;
                        self.put(&peer, state);
                    },
                    None => {},
                }
                assert(self.channels() =~= changed(
                    before,
                    peer@,
                    channel_after(before[peer@], event, now),
                ));
                None
            },
            DirectChannelEvent::PeerDisconnected(peer) => {
                match self.take(&peer) {
                    Some(mut state) => {
                        state.connection_status = ConnectionStatus::Disconnected;
                        self.put(&peer, state);
                    },
                    None => {},
                }
                assert(self.channels() =~= changed(
                    before,
                    peer@,
                    channel_after(before[peer@], event, now),
                ));
                None
            },
            DirectChannelEvent::MessageSent { peer, success, error } => {
                assert(self.channels() =~= changed(before, peer@, before[peer@]));
                None
            },
            DirectChannelEvent::HeartbeatReceived(peer) => {
                match self.take(&peer) {
                    Some(mut state) => {
                        state.last_activity = now;
                        state.last_heartbeat = now;
                        self.put(&peer, state);
                    },
                    None => {},
                }
                assert(self.channels() =~= changed(
                    before,
                    peer@,
                    channel_after(before[peer@], event, now),
                ));
                None
            },
            DirectChannelEvent::HeartbeatTimeout(peer) => {
                match self.take(&peer) {
                    Some(mut state) => {
                        state.connection_status = ConnectionStatus::Error(
                            text::owned("Heartbeat timeout"),
                        );
                        self.put(&peer, state);
                    },
                    None => {},
                }
                assert(self.channels() =~= changed(
                    before,
                    peer@,
                    channel_after(before[peer@], event, now),
                ));
                None
            },
        }
    }
}

impl DirectChannel {
    /// The peers that are due for a heartbeat.
    pub fn peers_to_heartbeat(&self, now: u64) -> (r: Vec<NodeId>)
        ensures
            lists(keys(r@), self.states(), heartbeat_due(now)),
    {
        let chosen = |c: &ChannelState| -> (b: bool)
            ensures
                b == heartbeat_due(now)(*c),
            {
                match c.connection_status {
                    ConnectionStatus::Connected => since(now, c.last_heartbeat)
                        > HEARTBEAT_INTERVAL,
                    _ => false,
                }
            };
        let ids: Vec<[u8; 32]> = self.channels.listed(chosen, Ghost(heartbeat_due(now)));
        node::of_ids(&ids)
    }

    /// The peers that are due to be connected again.
    pub fn peers_to_reconnect(&self, now: u64) -> (r: Vec<NodeId>)
        ensures
            lists(keys(r@), self.states(), reconnect_due(now)),
    {
        let chosen = |c: &ChannelState| -> (b: bool)
            ensures
                b == reconnect_due(now)(*c),
            {
                match c.connection_status {
                    ConnectionStatus::Error(_) => since(now, c.last_activity) > RETRY_AFTER_ERROR,
                    ConnectionStatus::Disconnected => since(now, c.last_activity)
                        > RETRY_AFTER_DISCONNECT,
                    _ => false,
                }
            };
        let ids: Vec<[u8; 32]> = self.channels.listed(chosen, Ghost(reconnect_due(now)));
        node::of_ids(&ids)
    }

    /// The peers that are connected.
    pub fn list_connected_peers(&self) -> (r: Vec<NodeId>)
        ensures
            lists(keys(r@), self.states(), is_connected()),
    {
        let chosen = |c: &ChannelState| -> (b: bool)
            ensures
                b == is_connected()(*c),
            {
                match c.connection_status {
                    ConnectionStatus::Connected => true,
                    _ => false,
                }
            };
        let ids: Vec<[u8; 32]> = self.channels.listed(chosen, Ghost(is_connected()));
        node::of_ids(&ids)
    }

    /// The state of the channel with a peer.
    pub fn channel(&self, peer: &NodeId) -> (r: Option<&ChannelState>)
        ensures
            match r {
                Some(c) => self.channels().dom().contains(peer@) && c@ == self.channels()[peer@],
                None => !self.channels().dom().contains(peer@),
            },
    {
        self.channels.get(&peer.bytes)
    }

    /// Of every peer with a channel, how many messages came over it, and how long ago the
    /// last activity was.
    pub fn get_channel_stats(&self, now: u64) -> (r: Vec<(NodeId, (u64, u64))>)
        ensures
            lists(
                r@.map_values(|e: (NodeId, (u64, u64))| e.0@),
                self.channels(),
                |c: ChannelModel| true,
            ),
            forall|i: int|
                0 <= i < r@.len() ==> {
                    let (peer, (count, age)) = #[trigger] r@[i];
                    &&& count == self.channels()[peer@].message_count
                    &&& age == elapsed(now, self.channels()[peer@].last_activity)
                },
    {
        let total: usize = self.channels.len();
        let mut out: Vec<(NodeId, (u64, u64))> = Vec::new();
        let mut i: usize = 0;
        while i < total
            invariant
                i <= total,
                total == self.channels.ids().len(),
                out@.len() == i,
                forall|j: int|
                    0 <= j < i ==> {
                        let (peer, (count, age)) = #[trigger] out@[j];
                        &&& peer@ == self.channels.ids()[j]
                        &&& count == self.channels()[peer@].message_count
                        &&& age == elapsed(now, self.channels()[peer@].last_activity)
                    },
            decreases total - i,
        {
            let peer = NodeId { bytes: self.channels.id_at(i) };
            let state: &ChannelState = self.channels.value_at(i);
            out.push((peer, (state.message_count, since(now, state.last_activity))));
            i += 1;
        }
        let ghost peers = out@.map_values(|e: (NodeId, (u64, u64))| e.0@);
        assert(peers =~= self.channels.ids());
        assert forall|k: Seq<u8>| #[trigger]
            peers.contains(k) <==> self.channels().dom().contains(k) by {
            assert(self.channels@.dom().contains(k) <==> self.channels.ids().contains(k));
        }
        out
    }

    /// Begins to connect a peer again; gives the topic that is to get a heartbeat.
    pub fn begin_reconnect(&mut self, peer: &NodeId, now: u64) -> (r: Option<[u8; 32]>)
        ensures
            match r {
                Some(topic) => old(self).channels().dom().contains(peer@) && topic@
                    == old(self).channels()[peer@].topic,
                None => !old(self).channels().dom().contains(peer@),
            },
            final(self).channels() == changed(
                old(self).channels(),
                peer@,
                (ChannelModel {
                    status: StatusModel::Connecting,
                    last_activity: now,
                    ..old(self).channels()[peer@]
                }),
            ),
            final(self).own() == old(self).own(),
            final(self).is_running() == old(self).is_running(),
            final(self).was_started() == old(self).was_started(),
    {
        let ghost before = self.channels();
        let ghost after = ChannelModel {
            status: StatusModel::Connecting,
            last_activity: now,
            ..before[peer@]
        };
        let r: Option<[u8; 32]> = match self.take(peer) {
            Some(mut state) => {
                state.connection_status = ConnectionStatus::Connecting;
                state.last_activity = now;
                let topic: [u8; 32] = state.topic;
                self.put(peer, state);
                Some(topic)
            },
            None => None,
        };
        assert(self.channels() =~= changed(before, peer@, after));
        r
    }

    /// The message that carries data to a peer, and the topic that it goes to.
    pub fn send_data(&self, peer: NodeId, payload: Vec<u8>, timestamp: u64) -> (r: Result<
        ([u8; 32], DirectChannelMessage),
        GuardianError,
    >)
        ensures
            if payload@.len() > MAX_MESSAGE_SIZE {
                outcome(r) == Err::<([u8; 32], DirectChannelMessage), Failure>(
                    Failure::Other(
                        "Message too large: "@ + decimal_text(payload@.len()) + " bytes (maximum: "@
                            + decimal_text(MAX_MESSAGE_SIZE as nat) + ")"@,
                    ),
                )
            } else {
                r is Ok && r->Ok_0.0@ == channel_topic(self.own(), peer@) && r->Ok_0.1@ == (
                MessageModel {
                    message_type: MessageType::Data,
                    payload: payload@,
                    timestamp,
                    sender: hex_text(self.own()),
                })
            },
    {
        if payload.len() > MAX_MESSAGE_SIZE {
            let size: String = text::decimal(payload.len() as u64);
            let limit: String = text::decimal(MAX_MESSAGE_SIZE as u64);
            return Err(
                GuardianError::Other(
                    text::join5(
                        "Message too large: ",
                        size.as_str(),
                        " bytes (maximum: ",
                        limit.as_str(),
                        ")",
                    ),
                ),
            );
        }
        let message = DirectChannelMessage {
            message_type: MessageType::Data,
            payload,
            timestamp,
            sender: self.own_node_id.render(),
        };
        Ok((self.get_channel_topic(peer), message))
    }

    /// The message that keeps a channel alive.
    pub fn heartbeat_message(timestamp: u64) -> (r: DirectChannelMessage)
        ensures
            r@ == (MessageModel {
                message_type: MessageType::Heartbeat,
                payload: Seq::empty(),
                timestamp,
                sender: "heartbeat"@,
            }),
    {
        let r = DirectChannelMessage {
            message_type: MessageType::Heartbeat,
            payload: Vec::new(),
            timestamp,
            sender: text::owned("heartbeat"),
        };
        assert(r.payload@ =~= Seq::<u8>::empty());
        r
    }

    /// The message that greets a peer.
    pub fn handshake_message(&self, timestamp: u64) -> (r: DirectChannelMessage)
        ensures
            r@ == (MessageModel {
                message_type: MessageType::Ack,
                payload: utf8("handshake:"@ + hex_text(self.own())),
                timestamp,
                sender: hex_text(self.own()),
            }),
    {
        let id: String = self.own_node_id.render();
        let greeting: String = text::join2("handshake:", id.as_str());
        DirectChannelMessage {
            message_type: MessageType::Ack,
            payload: bytes::to_vec(greeting.as_str().as_bytes()),
            timestamp,
            sender: id,
        }
    }

    /// The message that asks a peer to show up.
    pub fn discovery_beacon(&self, target_peer: &NodeId, timestamp: u64) -> (r:
        DirectChannelMessage)
        ensures
            r@ == (MessageModel {
                message_type: MessageType::Heartbeat,
                payload: utf8(beacon_text(self.own(), target_peer@)),
                timestamp,
                sender: hex_text(self.own()),
            }),
    {
        let id: String = self.own_node_id.render();
        let target: String = target_peer.render();
        let beacon: String = text::join5(
            "discovery_beacon",
            ":",
            id.as_str(),
            ":",
            target.as_str(),
        );
        DirectChannelMessage {
            message_type: MessageType::Heartbeat,
            payload: bytes::to_vec(beacon.as_str().as_bytes()),
            timestamp,
            sender: id,
        }
    }

    /// What is told of a message that was published, or that could not be for a reason.
    pub fn sent(peer: NodeId, published: Result<(), String>) -> (r: (
        DirectChannelEvent,
        Result<(), GuardianError>,
    ))
        ensures
            match published {
                Ok(_) => r.0 == (DirectChannelEvent::MessageSent {
                    peer,
                    success: true,
                    error: None,
                }) && r.1 is Ok,
                Err(detail) => r.0 matches DirectChannelEvent::MessageSent {
                    peer: to,
                    success,
                    error,
                } && to == peer && !success && error is Some && error->0@
                    == "Error publishing message: "@ + detail@ && outcome(r.1) == Err::<
                    (),
                    Failure,
                >(Failure::Other("Error publishing message: "@ + detail@)),
            },
    {
        match published {
            Ok(_) => (
                DirectChannelEvent::MessageSent { peer, success: true, error: None },
                Ok(()),
            ),
            Err(detail) => {
                let message: String = text::join2("Error publishing message: ", detail.as_str());
                (
                    DirectChannelEvent::MessageSent {
                        peer,
                        success: false,
                        error: Some(message.clone()),
                    },
                    Err(GuardianError::Other(message)),
                )
            },
        }
    }

    /// Begins to connect a peer, unless it is connected or about to be.
    pub fn connect_to_peer(&mut self, peer: NodeId, now: u64) -> (r: ConnectStep)
        ensures
            if old(self).channels().dom().contains(peer@) && (
            old(self).channels()[peer@].status is Connected
                || old(self).channels()[peer@].status is Connecting) {
                r is Done && final(self).channels() == old(self).channels()
            } else {
                r matches ConnectStep::Subscribe { topic } && topic@ == channel_topic(
                    old(self).own(),
                    peer@,
                ) && final(self).channels() == old(self).channels().insert(
                    peer@,
                    connecting_channel(old(self).own(), peer@, now),
                )
            },
            final(self).own() == old(self).own(),
            final(self).is_running() == old(self).is_running(),
            final(self).was_started() == old(self).was_started(),
    {
        let topic: [u8; 32] = self.get_channel_topic(peer);
        match self.channels.get(&peer.bytes) {
            Some(state) => match state.connection_status {
                ConnectionStatus::Connected => {
                    return ConnectStep::Done;
                },
                ConnectionStatus::Connecting => {
                    return ConnectStep::Done;
                },
                _ => {},
            },
            None => {},
        }
        let state = ChannelState {
            node_id: peer,
            topic,
            connection_status: ConnectionStatus::Connecting,
            last_activity: now,
            message_count: 0,
            last_heartbeat: now,
        };
        self.put(&peer, state);
        ConnectStep::Subscribe { topic }
    }

    /// Notes that a peer was not found, for a reason; the error tells so.
    pub fn discovery_failed(&mut self, peer: &NodeId, detail: &str) -> (r: GuardianError)
        ensures
            r@ == Failure::Other(
                "Timeout discovering peer "@ + hex_text(peer@) + " after "@ + decimal_text(30)
                    + "s"@,
            ),
            final(self).channels() == changed(
                old(self).channels(),
                peer@,
                (ChannelModel {
                    status: StatusModel::Error("Discovery timeout: "@ + detail@),
                    ..old(self).channels()[peer@]
                }),
            ),
            final(self).own() == old(self).own(),
            final(self).is_running() == old(self).is_running(),
            final(self).was_started() == old(self).was_started(),
    {
        let ghost before = self.channels();
        let ghost after = ChannelModel {
            status: StatusModel::Error("Discovery timeout: "@ + detail@),
            ..before[peer@]
        };
        match self.take(peer) {
            Some(mut state) => {
                state.connection_status = ConnectionStatus::Error(
                    text::join2("Discovery timeout: ", detail),
                );
                self.put(peer, state);
            },
            None => {},
        }
        assert(self.channels() =~= changed(before, peer@, after));
        let id: String = peer.render();
        let seconds: String = text::decimal(CONNECTION_TIMEOUT / 1_000_000_000);
        GuardianError::Other(
            text::join5(
                "Timeout discovering peer ",
                id.as_str(),
                " after ",
                seconds.as_str(),
                "s",
            ),
        )
    }

    /// Stops event processing and forgets every channel; gives the peers that are gone.
    pub fn stop(&mut self) -> (r: Vec<NodeId>)
        ensures
            !final(self).is_running(),
            final(self).was_started() == old(self).was_started(),
            final(self).own() == old(self).own(),
            final(self).channels() == Map::<Seq<u8>, ChannelModel>::empty(),
            lists(keys(r@), old(self).states(), |c: ChannelState| true),
    {
        self.running = false;
        let ghost any = |c: ChannelState| true;
        let chosen = |c: &ChannelState| -> (b: bool)
            ensures
                b,
            { true };
        let ids: Vec<[u8; 32]> = self.channels.listed(chosen, Ghost(any));
        let peers: Vec<NodeId> = node::of_ids(&ids);
        self.channels = IdMap::new();
        assert(self.channels() =~= Map::<Seq<u8>, ChannelModel>::empty());
        peers
    }
}

/// What a beacon says.
pub open spec fn beacon_text(own: Seq<u8>, target: Seq<u8>) -> Seq<char> {
    "discovery_beacon"@ + ":"@ + hex_text(own) + ":"@ + hex_text(target)
}

/// What is to be done about a message that came in.
#[derive(Debug)]
pub enum Incoming {
    /// Nothing.
    Nothing,
    /// An event is to be processed.
    Event(DirectChannelEvent),
    /// The sender is to be greeted on a topic.
    Handshake { topic: [u8; 32] },
}

/// What comes on a topic.
#[derive(Debug)]
pub enum Reception {
    /// A message of a peer.
    Message { peer: NodeId, message: DirectChannelMessage },
    /// Something that is no message.
    Unreadable,
    /// Messages were missed.
    Lagged,
    /// Nothing will come any more.
    Closed,
}

/// What is to be done about what came on a topic.
#[derive(Debug)]
pub enum ConsumerAction {
    /// An event is to be processed.
    Emit(DirectChannelEvent),
    /// The next is to be awaited.
    Continue,
    /// No more is to be awaited.
    Stop,
}

/// Whether a beacon is directed at a node.
pub open spec fn beacon_is_for(own: Seq<u8>, beacon: Seq<char>) -> bool {
    pieces(beacon, ':').len() >= 3 && pieces(beacon, ':')[2] == hex_text(own)
}

/// Whether a channel waits for a greeting.
pub open spec fn awaits_greeting(channels: Map<Seq<u8>, ChannelModel>, peer: Seq<u8>) -> bool {
    channels.dom().contains(peer) && (channels[peer].status is Connecting
        || channels[peer].status is Disconnected)
}

/// A channel once its peer's greeting came in.
pub open spec fn greeted(channel: ChannelModel, now: u64) -> ChannelModel {
    match channel.status {
        StatusModel::Connecting => ChannelModel {
            status: StatusModel::Connected,
            last_activity: now,
            last_heartbeat: now,
            ..channel
        },
        StatusModel::Connected => ChannelModel { last_activity: now, last_heartbeat: now, ..channel },
        _ => channel,
    }
}

/// The text of a payload, if it is one and begins with a word.
pub open spec fn says(payload: Seq<u8>, word: Seq<char>) -> Option<Seq<char>> {
    match utf8_text(payload) {
        Some(t) => if begins_with(t, word) {
            Some(t)
        } else {
            None
        },
        None => None,
    }
}

/// The text of a payload, if it is one and begins with a word.
fn said(payload: Vec<u8>, word: &str) -> (r: Option<String>)
    ensures
        match says(payload@, word@) {
            Some(t) => r is Some && r->0@ == t,
            None => r is None,
        },
{
    match bytes::text_of_utf8(payload) {
        Ok(t) => if text::starts_with(t.as_str(), word) {
            Some(t)
        } else {
            None
        },
        Err(_) => None,
    }
}

impl DirectChannel {
    /// The event that a message on a topic makes; acknowledgements make none.
    pub fn consume(peer: NodeId, message: DirectChannelMessage) -> (r: Option<DirectChannelEvent>)
        ensures
            r == match message.message_type {
                MessageType::Data => Some(
                    DirectChannelEvent::MessageReceived { peer, payload: message.payload },
                ),
                MessageType::Heartbeat => Some(DirectChannelEvent::HeartbeatReceived(peer)),
                MessageType::Ack => None,
            },
    {
        match message.message_type {
            MessageType::Data => Some(
                DirectChannelEvent::MessageReceived { peer, payload: message.payload },
            ),
            MessageType::Heartbeat => Some(DirectChannelEvent::HeartbeatReceived(peer)),
            MessageType::Ack => None,
        }
    }

    /// What is to be done about what came on a topic; what cannot be read and what was
    /// missed is passed over.
    pub fn consumer_step(reception: Reception) -> (r: ConsumerAction)
        ensures
            r == match reception {
                Reception::Message { peer, message } => match message.message_type {
                    MessageType::Data => ConsumerAction::Emit(
                        DirectChannelEvent::MessageReceived { peer, payload: message.payload },
                    ),
                    MessageType::Heartbeat => ConsumerAction::Emit(
                        DirectChannelEvent::HeartbeatReceived(peer),
                    ),
                    MessageType::Ack => ConsumerAction::Continue,
                },
                Reception::Unreadable => ConsumerAction::Continue,
                Reception::Lagged => ConsumerAction::Continue,
                Reception::Closed => ConsumerAction::Stop,
            },
    {
        match reception {
            Reception::Message { peer, message } => match Self::consume(peer, message) {
                Some(event) => ConsumerAction::Emit(event),
                None => ConsumerAction::Continue,
            },
            Reception::Unreadable => ConsumerAction::Continue,
            Reception::Lagged => ConsumerAction::Continue,
            Reception::Closed => ConsumerAction::Stop,
        }
    }

    /// The event that sending a heartbeat makes: none, unless it could not be sent.
    pub fn heartbeat_sent(peer: NodeId, ok: bool) -> (r: Option<DirectChannelEvent>)
        ensures
            r == if ok {
                None
            } else {
                Some(DirectChannelEvent::HeartbeatTimeout(peer))
            },
    {
        if ok {
            None
        } else {
            Some(DirectChannelEvent::HeartbeatTimeout(peer))
        }
    }

    /// Whether a beacon is to be answered: it is directed at this node, and the channel
    /// with its sender waits for a greeting.
    pub fn handle_discovery_beacon(&self, sender_peer: &NodeId, beacon_payload: &str) -> (r: bool)
        ensures
            r == (beacon_is_for(self.own(), beacon_payload@) && awaits_greeting(
                self.channels(),
                sender_peer@,
            )),
    {
        let parts: Vec<String> = text::split(beacon_payload, ':');
        assert(texts_at(parts@, pieces(beacon_payload@, ':'), 2));
        if parts.len() < 3 {
            return false;
        }
        let id: String = self.own_node_id.render();
        if !text::same_text(parts[2].as_str(), id.as_str()) {
            return false;
        }
        match self.channels.get(&sender_peer.bytes) {
            Some(state) => match state.connection_status {
                ConnectionStatus::Connecting => true,
                ConnectionStatus::Disconnected => true,
                _ => false,
            },
            None => false,
        }
    }

    /// Takes in a greeting; tells whether the channel with its sender is connected by it.
    pub fn handle_handshake_response(
        &mut self,
        sender_peer: &NodeId,
        handshake_payload: &str,
        now: u64,
    ) -> (r: bool)
        ensures
            r == (pieces(handshake_payload@, ':').len() >= 2
                && old(self).channels().dom().contains(sender_peer@)
                && old(self).channels()[sender_peer@].status is Connecting),
            final(self).channels() == if pieces(handshake_payload@, ':').len() >= 2 {
                changed(
                    old(self).channels(),
                    sender_peer@,
                    greeted(old(self).channels()[sender_peer@], now),
                )
            } else {
                old(self).channels()
            },
            final(self).own() == old(self).own(),
            final(self).is_running() == old(self).is_running(),
            final(self).was_started() == old(self).was_started(),
    {
        let parts: Vec<String> = text::split(handshake_payload, ':');
        assert(texts_at(parts@, pieces(handshake_payload@, ':'), 0));
        if parts.len() < 2 {
            return false;
        }
        let ghost before = self.channels();
        let r: bool = match self.take(sender_peer) {
            Some(mut state) => {
                let mut connected: bool = false;
                match state.connection_status {
                    ConnectionStatus::Connecting => {
                        state.connection_status = ConnectionStatus::Connected;
                        state.last_activity = now;
                        state.last_heartbeat = now;
                        connected = true;
                    },
                    ConnectionStatus::Connected => {
                        state.last_activity = now;
                        state.last_heartbeat = now;
                    },
                    _ => {},
                }
                self.put(sender_peer, state);
                connected
            },
            None => false,
        };
        assert(self.channels() =~= changed(
            before,
            sender_peer@,
            greeted(before[sender_peer@], now),
        ));
        r
    }

    /// Takes in a message; tells what is to be done about it. A heartbeat may be a beacon,
    /// and an acknowledgement a greeting.
    pub fn handle_iroh_message(
        &mut self,
        message: DirectChannelMessage,
        sender_peer: NodeId,
        now: u64,
    ) -> (r: Incoming)
        ensures
            match message.message_type {
                MessageType::Data => r == Incoming::Event(
                    DirectChannelEvent::MessageReceived {
                        peer: sender_peer,
                        payload: message.payload,
                    },
                ),
                MessageType::Heartbeat => match says(message.payload@, "discovery_beacon:"@) {
                    Some(beacon) => if beacon_is_for(old(self).own(), beacon) && awaits_greeting(
                        old(self).channels(),
                        sender_peer@,
                    ) {
                        r matches Incoming::Handshake { topic } && topic@ == channel_topic(
                            old(self).own(),
                            sender_peer@,
                        )
                    } else {
                        r is Nothing
                    },
                    None => r == Incoming::Event(DirectChannelEvent::HeartbeatReceived(sender_peer)),
                },
                MessageType::Ack => if says(message.payload@, "handshake:"@) is Some && pieces(
                    says(message.payload@, "handshake:"@)->0,
                    ':',
                ).len() >= 2 && old(self).channels().dom().contains(sender_peer@)
                    && old(self).channels()[sender_peer@].status is Connecting {
                    r == Incoming::Event(DirectChannelEvent::PeerConnected(sender_peer))
                } else {
                    r is Nothing
                },
            },
            final(self).channels() == if message.message_type is Ack && says(
                message.payload@,
                "handshake:"@,
            ) is Some && pieces(says(message.payload@, "handshake:"@)->0, ':').len() >= 2 {
                changed(
                    old(self).channels(),
                    sender_peer@,
                    greeted(old(self).channels()[sender_peer@], now),
                )
            } else {
                old(self).channels()
            },
            final(self).own() == old(self).own(),
            final(self).is_running() == old(self).is_running(),
            final(self).was_started() == old(self).was_started(),
    {
        match message.message_type {
            MessageType::Data => Incoming::Event(
                DirectChannelEvent::MessageReceived {
                    peer: sender_peer,
                    payload: message.payload,
                },
            ),
            MessageType::Heartbeat => match said(message.payload, "discovery_beacon:") {
                Some(beacon) => if self.handle_discovery_beacon(&sender_peer, beacon.as_str()) {
                    Incoming::Handshake { topic: self.get_channel_topic(sender_peer) }
                } else {
                    Incoming::Nothing
                },
                None => Incoming::Event(DirectChannelEvent::HeartbeatReceived(sender_peer)),
            },
            MessageType::Ack => match said(message.payload, "handshake:") {
                Some(greeting) => if self.handle_handshake_response(
                    &sender_peer,
                    greeting.as_str(),
                    now,
                ) {
                    Incoming::Event(DirectChannelEvent::PeerConnected(sender_peer))
                } else {
                    Incoming::Nothing
                },
                None => Incoming::Nothing,
            },
        }
    }
}

/// Whether strings are texts one for one, which tells of the one at a place too.
spec fn texts_at(v: Seq<String>, t: Seq<Seq<char>>, i: int) -> bool {
    v.len() == t.len() && (i < v.len() ==> v[i]@ == t[i])
}

/// The greeting of a node is read as one.
pub proof fn lemma_greeting_is_read(own: NodeId)
    ensures
        ({
            let greeting = "handshake:"@ + hex_text(own@);
            says(utf8(greeting), "handshake:"@) == Some(greeting) && pieces(greeting, ':').len()
                == 2
        }),
{
    let greeting = "handshake:"@ + hex_text(own@);
    reveal_strlit("handshake:");
    vstd::utf8::encode_utf8_valid_utf8(greeting);
    vstd::utf8::encode_utf8_decode_utf8(greeting);
    assert(greeting.take(10) =~= "handshake:"@);
    let word = "handshake:"@.drop_last();
    hexadecimal::lemma_hex_no_colon(own@);
    text::lemma_pieces_behind(word, ':', hex_text(own@));
    assert(word.push(':') =~= "handshake:"@);
    text::lemma_one_piece(word, ':');
}

/// The beacon that a node sends to another is read as one that is directed at it, and
/// at nobody else.
pub proof fn lemma_beacon_is_read(own: NodeId, target: NodeId, other: NodeId)
    ensures
        says(utf8(beacon_text(own@, target@)), "discovery_beacon:"@) == Some(
            beacon_text(own@, target@),
        ),
        beacon_is_for(other@, beacon_text(own@, target@)) <==> other@ == target@,
{
    let beacon = beacon_text(own@, target@);
    let word = "discovery_beacon"@;
    reveal_strlit("discovery_beacon");
    reveal_strlit("discovery_beacon:");
    reveal_strlit(":");
    vstd::utf8::encode_utf8_valid_utf8(beacon);
    vstd::utf8::encode_utf8_decode_utf8(beacon);
    assert(beacon.take(17) =~= "discovery_beacon:"@);
    hexadecimal::lemma_hex_no_colon(own@);
    hexadecimal::lemma_hex_no_colon(target@);
    text::lemma_one_piece(word, ':');
    let middle = word + ":"@ + hex_text(own@);
    text::lemma_pieces_behind(word, ':', hex_text(own@));
    assert(word.push(':') + hex_text(own@) =~= middle);
    text::lemma_pieces_behind(middle, ':', hex_text(target@));
    assert(middle.push(':') + hex_text(target@) =~= beacon);
    hexadecimal::lemma_hex_round_trip(target@);
    hexadecimal::lemma_hex_round_trip(other@);
}

/// How far the search for a peer is.
#[derive(Clone, Copy, PartialEq, Eq, Structural, Debug)]
pub enum EstablishPhase {
    /// The connected peers were asked for, for the first time.
    Global,
    /// The peers of the topic were asked for.
    Topic,
    /// A greeting was sent.
    Greeting,
    /// The connected peers were asked for again.
    GlobalAgain,
    /// It is waited before the next look.
    Pause,
    /// A beacon was sent.
    Beacon,
    /// The peers of the topic were asked for since the beacon.
    BeaconTopic,
    /// It is waited before the next look since the beacon.
    BeaconPause,
    /// The search is over.
    Over,
}

/// What the network reports during the search for a peer.
#[derive(Debug)]
pub enum EstablishEvent {
    /// The peers that were asked for.
    Peers(Vec<NodeId>),
    /// Whether the greeting could be published.
    Greeted(bool),
    /// Whether the beacon could be published, or why not.
    BeaconSent(Result<(), String>),
    /// The wait is over.
    Woke,
}

/// What the network is asked to do during the search for a peer.
#[derive(Debug)]
pub enum EstablishAction {
    /// Ask for the connected peers.
    AskConnected,
    /// Ask for the peers of the topic.
    AskTopic,
    /// Send a greeting.
    SendHandshake,
    /// Send a beacon.
    SendBeacon,
    /// Wait so many nanoseconds.
    Sleep(u64),
    /// The peer is connected: the event is to be processed.
    Connected(DirectChannelEvent),
    /// The search failed with an error because of a reason.
    Failed(String),
    /// The peer was not found; the channel keeps its state.
    NotFound,
    /// The report was not waited for.
    Ignore,
}

/// The search for a peer.
#[derive(Debug)]
pub struct Establishing {
    pub peer: NodeId,
    pub phase: EstablishPhase,
    pub since: u64,
}

/// Whether an action takes up the next look for the peer, or sends the beacon when the
/// time for that is over.
pub open spec fn looks_on(
    start: u64,
    now: u64,
    after: Establishing,
    action: EstablishAction,
) -> bool {
    if elapsed(now, start) < CONNECTION_TIMEOUT {
        action is AskTopic && after.phase is Topic && after.since == start
    } else {
        action is SendBeacon && after.phase is Beacon
    }
}

/// Whether an action takes up the next look for an answer to the beacon, or gives up when
/// the time for that is over.
pub open spec fn awaits_answer(
    start: u64,
    now: u64,
    after: Establishing,
    action: EstablishAction,
) -> bool {
    if elapsed(now, start) < BEACON_TIMEOUT {
        action is AskTopic && after.phase is BeaconTopic && after.since == start
    } else {
        action is NotFound && after.phase is Over
    }
}

/// Whether an action ends the search because the peer is connected.
pub open spec fn ends_connected(
    peer: NodeId,
    after: Establishing,
    action: EstablishAction,
) -> bool {
    after.phase is Over && action == EstablishAction::Connected(
        DirectChannelEvent::PeerConnected(peer),
    )
}

/// Whether a step is the one that a report calls for.
pub open spec fn establish_step(
    before: Establishing,
    event: EstablishEvent,
    now: u64,
    after: Establishing,
    action: EstablishAction,
) -> bool {
    &&& after.peer == before.peer
    &&& match (before.phase, event) {
        (EstablishPhase::Global, EstablishEvent::Peers(peers)) => if keys(peers@).contains(
            before.peer@,
        ) {
            ends_connected(before.peer, after, action)
        } else {
            looks_on(now, now, after, action)
        },
        (EstablishPhase::Topic, EstablishEvent::Peers(peers)) => after.since == before.since
            && if keys(peers@).contains(before.peer@) {
            action is SendHandshake && after.phase is Greeting
        } else {
            action is AskConnected && after.phase is GlobalAgain
        },
        (EstablishPhase::Greeting, EstablishEvent::Greeted(ok)) => if ok {
            ends_connected(before.peer, after, action)
        } else {
            after.since == before.since && action is AskConnected && after.phase is GlobalAgain
        },
        (EstablishPhase::GlobalAgain, EstablishEvent::Peers(peers)) => if keys(peers@).contains(
            before.peer@,
        ) {
            ends_connected(before.peer, after, action)
        } else {
            after.since == before.since && action == EstablishAction::Sleep(DISCOVERY_PAUSE)
                && after.phase is Pause
        },
        (EstablishPhase::Pause, EstablishEvent::Woke) => looks_on(
            before.since,
            now,
            after,
            action,
        ),
        (EstablishPhase::Beacon, EstablishEvent::BeaconSent(sent)) => match sent {
            Ok(_) => awaits_answer(now, now, after, action),
            Err(detail) => after.phase is Over && action == EstablishAction::Failed(detail),
        },
        (EstablishPhase::BeaconTopic, EstablishEvent::Peers(peers)) => if keys(peers@).contains(
            before.peer@,
        ) {
            ends_connected(before.peer, after, action)
        } else {
            after.since == before.since && action == EstablishAction::Sleep(BEACON_PAUSE)
                && after.phase is BeaconPause
        },
        (EstablishPhase::BeaconPause, EstablishEvent::Woke) => awaits_answer(
            before.since,
            now,
            after,
            action,
        ),
        _ => after == before && action is Ignore,
    }
}

impl Establishing {
    /// The search for a peer at its start; the connected peers are to be asked for.
    pub fn new(peer: NodeId, now: u64) -> (r: Establishing)
        ensures
            r == (Establishing { peer, phase: EstablishPhase::Global, since: now }),
    {
        Establishing { peer, phase: EstablishPhase::Global, since: now }
    }

    /// Ends the search because the peer is connected.
    fn connected(&mut self) -> (r: EstablishAction)
        ensures
            final(self).peer == old(self).peer,
            ends_connected(old(self).peer, *final(self), r),
    {
        self.phase = EstablishPhase::Over;
        EstablishAction::Connected(DirectChannelEvent::PeerConnected(self.peer))
    }

    /// Takes up the next look for the peer, or sends the beacon.
    fn look_on(&mut self, now: u64) -> (r: EstablishAction)
        ensures
            final(self).peer == old(self).peer,
            looks_on(old(self).since, now, *final(self), r),
    {
        if since(now, self.since) < CONNECTION_TIMEOUT {
            self.phase = EstablishPhase::Topic;
            EstablishAction::AskTopic
        } else {
            self.phase = EstablishPhase::Beacon;
            EstablishAction::SendBeacon
        }
    }

    /// Takes up the next look for an answer to the beacon, or gives up.
    fn await_answer(&mut self, now: u64) -> (r: EstablishAction)
        ensures
            final(self).peer == old(self).peer,
            awaits_answer(old(self).since, now, *final(self), r),
    {
        if since(now, self.since) < BEACON_TIMEOUT {
            self.phase = EstablishPhase::BeaconTopic;
            EstablishAction::AskTopic
        } else {
            self.phase = EstablishPhase::Over;
            EstablishAction::NotFound
        }
    }

    /// Takes in a report; tells what the network is asked to do next.
    pub fn step(&mut self, event: EstablishEvent, now: u64) -> (r: EstablishAction)
        ensures
            establish_step(*old(self), event, now, *final(self), r),
    {
        match event {
            EstablishEvent::Peers(peers) => {
                let found: bool = node::contains(&peers, &self.peer);
                match self.phase {
                    EstablishPhase::Global => if found {
                        self.connected()
                    } else {
                        self.since = now;
                        self.look_on(now)
                    },
                    EstablishPhase::Topic => if found {
                        self.phase = EstablishPhase::Greeting;
                        EstablishAction::SendHandshake
                    } else {
                        self.phase = EstablishPhase::GlobalAgain;
                        EstablishAction::AskConnected
                    },
                    EstablishPhase::GlobalAgain => if found {
                        self.connected()
                    } else {
                        self.phase = EstablishPhase::Pause;
                        EstablishAction::Sleep(DISCOVERY_PAUSE)
                    },
                    EstablishPhase::BeaconTopic => if found {
                        self.connected()
                    } else {
                        self.phase = EstablishPhase::BeaconPause;
                        EstablishAction::Sleep(BEACON_PAUSE)
                    },
                    _ => EstablishAction::Ignore,
                }
            },
            EstablishEvent::Greeted(ok) => match self.phase {
                EstablishPhase::Greeting => if ok {
                    self.connected()
                } else {
                    self.phase = EstablishPhase::GlobalAgain;
                    EstablishAction::AskConnected
                },
                _ => EstablishAction::Ignore,
            },
            EstablishEvent::BeaconSent(sent) => match self.phase {
                EstablishPhase::Beacon => match sent {
                    Ok(_) => {
                        self.since = now;
                        self.await_answer(now)
                    },
                    Err(detail) => {
                        self.phase = EstablishPhase::Over;
                        EstablishAction::Failed(detail)
                    },
                },
                _ => EstablishAction::Ignore,
            },
            EstablishEvent::Woke => match self.phase {
                EstablishPhase::Pause => self.look_on(now),
                EstablishPhase::BeaconPause => self.await_answer(now),
                _ => EstablishAction::Ignore,
            },
        }
    }
}

/// How far a search is from its end: looks at the topic and at the connected peers come
/// in turn, and then the beacon.
pub open spec fn establish_rank(phase: EstablishPhase) -> int {
    match phase {
        EstablishPhase::Global => 8,
        EstablishPhase::Topic => 7,
        EstablishPhase::Greeting => 6,
        EstablishPhase::GlobalAgain => 5,
        EstablishPhase::Pause => 4,
        EstablishPhase::Beacon => 3,
        EstablishPhase::BeaconTopic => 2,
        EstablishPhase::BeaconPause => 1,
        EstablishPhase::Over => 0,
    }
}

/// A peer is taken for connected only if it was reported, or its greeting was published.
pub proof fn lemma_connected_was_seen(
    before: Establishing,
    event: EstablishEvent,
    now: u64,
    after: Establishing,
    action: EstablishAction,
)
    requires
        establish_step(before, event, now, after, action),
        action is Connected,
    ensures
        action == EstablishAction::Connected(DirectChannelEvent::PeerConnected(before.peer)),
        match event {
            EstablishEvent::Peers(peers) => keys(peers@).contains(before.peer@),
            EstablishEvent::Greeted(ok) => ok,
            _ => false,
        },
{
}

/// Every report that is waited for brings a search nearer to its end, but for the end of
/// a wait within the time of the search.
pub proof fn lemma_establishing_ends(
    before: Establishing,
    event: EstablishEvent,
    now: u64,
    after: Establishing,
    action: EstablishAction,
)
    requires
        establish_step(before, event, now, after, action),
        !(action is Ignore),
    ensures
        establish_rank(after.phase) < establish_rank(before.phase) || (before.phase is Pause
            && elapsed(now, before.since) < CONNECTION_TIMEOUT) || (before.phase is BeaconPause
            && elapsed(now, before.since) < BEACON_TIMEOUT),
        before.phase is Pause || before.phase is BeaconPause ==> after.phase is Over || after.phase
            is Beacon || after.since == before.since,
{
}

/// What the network reports of a topic of the bridge.
#[derive(Debug)]
pub enum BridgeEvent {
    /// A message was received from a peer.
    Received { peer: NodeId, content: Vec<u8> },
    /// A peer is now a neighbor.
    NeighborUp(NodeId),
    /// A peer is a neighbor no more.
    NeighborDown(NodeId),
    /// Messages were missed.
    Lagged,
    /// The stream of events failed.
    Failed,
}

/// What is to be done about a report.
#[derive(Debug)]
pub enum BridgeAction {
    /// Hand a message on to the topic's receivers.
    Forward { peer: NodeId, content: Vec<u8> },
    /// Nothing.
    Ignore,
    /// Stop listening.
    Stop,
}

/// What is to be done so that a topic is subscribed to.
#[derive(Debug)]
pub enum SubscribeStep {
    /// Nothing: it is subscribed to, and there are no peers to add.
    Done,
    /// It is subscribed to: peers are to be added by a second subscription, whose events
    /// are taken in too.
    Resubscribe { peers: Vec<NodeId> },
    /// It is to be subscribed to through peers.
    Subscribe { peers: Vec<NodeId> },
}

/// The topics of a node and the peers on them.
#[derive(Debug)]
pub struct IrohBridge {
    own_node_id: NodeId,
    connected_peers: Vec<NodeId>,
    topic_peers: IdMap<Vec<NodeId>>,
    subscribed_topics: IdMap<bool>,
}

/// The peers of topics by their bytes.
pub open spec fn peers_by_topic(m: Map<Seq<u8>, Vec<NodeId>>) -> Map<Seq<u8>, Seq<Seq<u8>>> {
    m.map_values(|v: Vec<NodeId>| keys(v@))
}

/// The peers of topics once a report on one was taken in. A peer that comes up is added
/// even if it is there; one that goes down is removed wherever it is.
pub open spec fn peers_after(
    m: Map<Seq<u8>, Seq<Seq<u8>>>,
    topic: Seq<u8>,
    event: BridgeEvent,
) -> Map<Seq<u8>, Seq<Seq<u8>>> {
    match event {
        BridgeEvent::NeighborUp(peer) => m.insert(
            topic,
            if m.dom().contains(topic) {
                m[topic].push(peer@)
            } else {
                seq![peer@]
            },
        ),
        BridgeEvent::NeighborDown(peer) => if m.dom().contains(topic) {
            m.insert(topic, removed(m[topic], peer@))
        } else {
            m
        },
        _ => m,
    }
}

impl IrohBridge {
    /// The node itself.
    pub closed spec fn own(self) -> Seq<u8> {
        self.own_node_id@
    }

    /// The connected peers.
    pub closed spec fn connected(self) -> Seq<Seq<u8>> {
        keys(self.connected_peers@)
    }

    /// The peers of each tracked topic.
    pub closed spec fn peers(self) -> Map<Seq<u8>, Seq<Seq<u8>>> {
        peers_by_topic(self.topic_peers@)
    }

    /// The topics that are subscribed to.
    pub closed spec fn subscribed(self) -> Set<Seq<u8>> {
        self.subscribed_topics@.dom()
    }

    /// A node that is subscribed to nothing.
    pub fn new(own_node_id: NodeId) -> (r: IrohBridge)
        ensures
            r.own() == own_node_id@,
            r.connected() == Seq::<Seq<u8>>::empty(),
            r.peers() == Map::<Seq<u8>, Seq<Seq<u8>>>::empty(),
            r.subscribed() == Set::<Seq<u8>>::empty(),
    {
        let r = IrohBridge {
            own_node_id,
            connected_peers: Vec::new(),
            topic_peers: IdMap::new(),
            subscribed_topics: IdMap::new(),
        };
        assert(r.peers() =~= Map::<Seq<u8>, Seq<Seq<u8>>>::empty());
        assert(r.connected() =~= Seq::<Seq<u8>>::empty());
        r
    }

    /// The node itself.
    pub fn node_id(&self) -> (r: NodeId)
        ensures
            r@ == self.own(),
    {
        self.own_node_id
    }

    /// The identifier of a topic: the BLAKE3 digest of its name.
    pub fn topic_id_from_str(topic: &str) -> (r: [u8; 32])
        ensures
            r@ == blake3_digest(utf8(topic@)),
    {
        crypto::blake3(topic.as_bytes())
    }

    /// Replaces the connected peers.
    pub fn update_connected_peers(&mut self, peers: Vec<NodeId>)
        ensures
            final(self).connected() == keys(peers@),
            final(self).own() == old(self).own(),
            final(self).peers() == old(self).peers(),
            final(self).subscribed() == old(self).subscribed(),
    {
        self.connected_peers = peers;
    }

    /// Replaces the peers of a topic.
    pub fn update_topic_peers(&mut self, topic: [u8; 32], peers: Vec<NodeId>)
        ensures
            final(self).peers() == old(self).peers().insert(topic@, keys(peers@)),
            final(self).own() == old(self).own(),
            final(self).connected() == old(self).connected(),
            final(self).subscribed() == old(self).subscribed(),
    {
        self.topic_peers.insert(topic, peers);
        assert(self.peers() =~= old(self).peers().insert(topic@, keys(peers@)));
    }

    /// Checks that a topic is subscribed to, so that it can be published to.
    pub fn publish(&self, topic: &[u8; 32]) -> (r: Result<(), GuardianError>)
        ensures
            outcome(r) == if self.subscribed().contains(topic@) {
                Ok::<(), Failure>(())
            } else {
                Err(
                    Failure::Other(
                        "Topic "@ + short_text(topic@) + " is not subscribed for publication"@,
                    ),
                )
            },
    {
        if self.subscribed_topics.contains(topic) {
            Ok(())
        } else {
            let id: String = hexadecimal::short(topic);
            Err(
                GuardianError::Other(
                    text::join3("Topic ", id.as_str(), " is not subscribed for publication"),
                ),
            )
        }
    }

    /// Checks that messages of a topic can be received: that it is subscribed to.
    pub fn get_topic_receiver(&self, topic: &[u8; 32]) -> (r: Result<(), GuardianError>)
        ensures
            outcome(r) == if self.subscribed().contains(topic@) {
                Ok::<(), Failure>(())
            } else {
                Err(
                    Failure::Other("Could not get a receiver for topic: "@ + short_text(topic@)),
                )
            },
    {
        if self.subscribed_topics.contains(topic) {
            Ok(())
        } else {
            let id: String = hexadecimal::short(topic);
            Err(
                GuardianError::Other(
                    text::join2("Could not get a receiver for topic: ", id.as_str()),
                ),
            )
        }
    }

    /// How many peers are connected and how many topics are tracked, by name.
    pub fn get_interface_stats(&self) -> (r: TextMap<u64>)
        ensures
            r@ == with_entry(
                with_entry(
                    Seq::<(Seq<char>, u64)>::empty(),
                    "interface_connected_peers"@,
                    self.connected().len() as u64,
                ),
                "interface_tracked_topics"@,
                self.peers().len() as u64,
            ),
            self.connected().len() <= u64::MAX,
            self.peers().len() <= u64::MAX,
    {
        let mut stats: TextMap<u64> = TextMap::new();
        stats.insert(
            text::owned("interface_connected_peers"),
            self.connected_peers.len() as u64,
        );
        stats.insert(text::owned("interface_tracked_topics"), self.topic_peers.len() as u64);
        assert(self.peers().dom() =~= self.topic_peers@.dom());
        stats
    }

    /// Notes that a topic is subscribed to, and decides what is to be done for that.
    pub fn subscribe_topic(&mut self, topic: &[u8; 32], bootstrap_peers: Vec<NodeId>) -> (r:
        SubscribeStep)
        ensures
            r == if !old(self).subscribed().contains(topic@) {
                SubscribeStep::Subscribe { peers: bootstrap_peers }
            } else if bootstrap_peers@.len() == 0 {
                SubscribeStep::Done
            } else {
                SubscribeStep::Resubscribe { peers: bootstrap_peers }
            },
            final(self).subscribed() == old(self).subscribed().insert(topic@),
            final(self).peers() == if old(self).subscribed().contains(topic@)
                || old(self).peers().dom().contains(topic@) {
                old(self).peers()
            } else {
                old(self).peers().insert(topic@, Seq::empty())
            },
            final(self).own() == old(self).own(),
            final(self).connected() == old(self).connected(),
    {
        if self.subscribed_topics.contains(topic) {
            assert(self.subscribed() =~= old(self).subscribed().insert(topic@));
            if bootstrap_peers.len() == 0 {
                return SubscribeStep::Done;
            }
            return SubscribeStep::Resubscribe { peers: bootstrap_peers };
        }
        self.subscribed_topics.insert(*topic, true);
        assert(self.subscribed() =~= old(self).subscribed().insert(topic@));
        if !self.topic_peers.contains(topic) {
            let none: Vec<NodeId> = Vec::new();
            assert(keys(none@) =~= Seq::empty());
            self.topic_peers.insert(*topic, none);
            assert(self.peers() =~= old(self).peers().insert(topic@, Seq::empty()));
        }
        SubscribeStep::Subscribe { peers: bootstrap_peers }
    }

    /// The error that a topic could not be subscribed to, or not again, for a reason.
    pub fn subscribe_error(again: bool, detail: &str) -> (r: GuardianError)
        ensures
            r@ == Failure::Other(
                if again {
                    "Error re-subscribing to topic: "@ + detail@
                } else {
                    "Error subscribing to topic: "@ + detail@
                },
            ),
    {
        if again {
            GuardianError::Other(text::join2("Error re-subscribing to topic: ", detail))
        } else {
            GuardianError::Other(text::join2("Error subscribing to topic: ", detail))
        }
    }

    /// Takes in a report on a topic; tells what is to be done about it.
    pub fn handle_event(&mut self, topic: &[u8; 32], event: BridgeEvent) -> (r: BridgeAction)
        ensures
            r == match event {
                BridgeEvent::Received { peer, content } => BridgeAction::Forward { peer, content },
                BridgeEvent::Failed => BridgeAction::Stop,
                _ => BridgeAction::Ignore,
            },
            final(self).peers() == peers_after(old(self).peers(), topic@, event),
            final(self).own() == old(self).own(),
            final(self).connected() == old(self).connected(),
            final(self).subscribed() == old(self).subscribed(),
    {
        let ghost before = self.peers();
        match event {
            BridgeEvent::Received { peer, content } => BridgeAction::Forward { peer, content },
            BridgeEvent::NeighborUp(peer) => {
                let mut list: Vec<NodeId> = match self.topic_peers.remove(topic) {
                    Some(list) => list,
                    None => Vec::new(),
                };
                let ghost had = keys(list@);
                list.push(peer);
                assert(keys(list@) =~= had.push(peer@));
                self.topic_peers.insert(*topic, list);
                assert(!before.dom().contains(topic@) ==> keys(list@) =~= seq![peer@]);
                assert(self.peers() =~= peers_after(before, topic@, event));
                BridgeAction::Ignore
            },
            BridgeEvent::NeighborDown(peer) => {
                match self.topic_peers.remove(topic) {
                    Some(mut list) => {
                        node::remove(&mut list, &peer);
                        self.topic_peers.insert(*topic, list);
                    },
                    None => {},
                }
                assert(self.peers() =~= peers_after(before, topic@, event));
                BridgeAction::Ignore
            },
            BridgeEvent::Lagged => BridgeAction::Ignore,
            BridgeEvent::Failed => BridgeAction::Stop,
        }
    }

    /// The connected peers.
    pub fn get_connected_peers(&self) -> (r: Vec<NodeId>)
        ensures
            keys(r@) == self.connected(),
    {
        node::copy(&self.connected_peers)
    }

    /// The peers of a topic; none for a topic that is not tracked.
    pub fn get_topic_peers(&self, topic: &[u8; 32]) -> (r: Vec<NodeId>)
        ensures
            keys(r@) == if self.peers().dom().contains(topic@) {
                self.peers()[topic@]
            } else {
                Seq::empty()
            },
    {
        match self.topic_peers.get(topic) {
            Some(list) => node::copy(list),
            None => {
                let none: Vec<NodeId> = Vec::new();
                assert(keys(none@) =~= Seq::empty());
                none
            },
        }
    }
}

/// A neighbor that comes up on a topic is among its peers, until it goes down; other
/// topics are not touched.
pub proof fn lemma_bridge_neighbors(
    m: Map<Seq<u8>, Seq<Seq<u8>>>,
    topic: Seq<u8>,
    peer: NodeId,
    other: Seq<u8>,
)
    ensures
        peers_after(m, topic, BridgeEvent::NeighborUp(peer))[topic].contains(peer@),
        m.dom().contains(topic) ==> !peers_after(m, topic, BridgeEvent::NeighborDown(peer))[topic].contains(
            peer@,
        ),
        other != topic && m.dom().contains(other) ==> peers_after(
            m,
            topic,
            BridgeEvent::NeighborUp(peer),
        )[other] == m[other] && peers_after(m, topic, BridgeEvent::NeighborDown(peer))[other]
            == m[other],
{
    let up = peers_after(m, topic, BridgeEvent::NeighborUp(peer))[topic];
    assert(up[up.len() - 1] == peer@);
    if m.dom().contains(topic) {
        node::lemma_removed(m[topic], peer@, peer@);
    }
}

} // verus!
