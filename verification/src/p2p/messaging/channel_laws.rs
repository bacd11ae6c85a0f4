//! What comes over a channel between two nodes, and how its state changes.
use crate::error::GuardianError;
use crate::p2p::events::EventPubSubPayload;
use crate::p2p::messaging::direct_channel::{
    lemma_beacon_is_read, lemma_channel_topic_symmetric, lemma_greeting_is_read, ConnectStep,
    ConsumerAction, DirectChannel, DirectChannelEvent, DirectChannelMessage, Incoming,
    MessageType, Reception, StatusModel,
};
use crate::p2p::node::{keys, NodeId};
use vstd::prelude::*;

verus! {

/// Both ends of a channel publish to the same topic.
pub proof fn lemma_same_topic(
    a: &DirectChannel,
    b: &DirectChannel,
    node_a: NodeId,
    node_b: NodeId,
    topic_a: [u8; 32],
    topic_b: [u8; 32],
)
    requires
        a.own() == node_a@,
        b.own() == node_b@,
        call_ensures(DirectChannel::get_channel_topic, (a, node_b), topic_a),
        call_ensures(DirectChannel::get_channel_topic, (b, node_a), topic_b),
    ensures
        topic_a@ == topic_b@,
{
    lemma_channel_topic_symmetric(node_a, node_b);
}

/// Data of at most a mebibyte that one node sends to another goes to the topic that they share,
/// and reaches the other whole: the message that it is sent in is taken in as data of the sender,
/// and its payload is emitted as the sender's.
pub proof fn lemma_data_arrives(
    a: &DirectChannel,
    node_a: NodeId,
    node_b: NodeId,
    payload: Vec<u8>,
    timestamp: u64,
    sent: Result<([u8; 32], DirectChannelMessage), GuardianError>,
    b: &mut DirectChannel,
    now: u64,
    came: Incoming,
    later: &mut DirectChannel,
    then: u64,
    emitted: Option<EventPubSubPayload>,
)
    requires
        a.own() == node_a@,
        call_ensures(DirectChannel::send_data, (a, node_b, payload, timestamp), sent),
        sent is Ok ==> call_ensures(
            DirectChannel::handle_iroh_message,
            (b, sent->Ok_0.1, node_a, now),
            came,
        ),
        sent is Ok && came is Event ==> call_ensures(
            DirectChannel::handle_event,
            (later, came->Event_0, then),
            emitted,
        ),
    ensures
        sent is Ok <==> payload@.len() <= 1_048_576,
        sent is Ok ==> came is Event && came->Event_0 is MessageReceived,
        sent is Ok ==> emitted is Some && emitted->0.payload@ == payload@ && emitted->0.peer
            == node_a,
        sent is Ok ==> final(b).channels() == old(b).channels(),
{
}

/// A greeting that one node sends connects the channel that another is about to have with it.
pub proof fn lemma_greeting_connects(
    a: &DirectChannel,
    node_a: NodeId,
    timestamp: u64,
    greeting: DirectChannelMessage,
    b: &mut DirectChannel,
    now: u64,
    came: Incoming,
)
    requires
        a.own() == node_a@,
        call_ensures(DirectChannel::handshake_message, (a, timestamp), greeting),
        call_ensures(DirectChannel::handle_iroh_message, (b, greeting, node_a, now), came),
    ensures
        old(b).channels().dom().contains(node_a@) && old(b).channels()[node_a@].status is Connecting
            ==> {
            &&& came == Incoming::Event(DirectChannelEvent::PeerConnected(node_a))
            &&& final(b).channels().dom().contains(node_a@)
            &&& final(b).channels()[node_a@].status is Connected
            &&& final(b).channels()[node_a@].last_activity == now
        },
        !old(b).channels().dom().contains(node_a@) ==> came is Nothing && final(b).channels()
            == old(b).channels(),
{
    lemma_greeting_is_read(node_a);
}

/// A beacon that one node sends to another is answered with a greeting by that other, if its
/// channel with the first waits for one, and by nobody else.
pub proof fn lemma_beacon_is_answered(
    a: &DirectChannel,
    node_a: NodeId,
    target: &NodeId,
    timestamp: u64,
    beacon: DirectChannelMessage,
    b: &mut DirectChannel,
    node_b: NodeId,
    now: u64,
    came: Incoming,
)
    requires
        a.own() == node_a@,
        old(b).own() == node_b@,
        call_ensures(DirectChannel::discovery_beacon, (a, target, timestamp), beacon),
        call_ensures(DirectChannel::handle_iroh_message, (b, beacon, node_a, now), came),
    ensures
        came is Handshake <==> node_b@ == target@ && old(b).channels().dom().contains(node_a@) && (
        old(b).channels()[node_a@].status is Connecting
            || old(b).channels()[node_a@].status is Disconnected),
        !(came is Handshake) ==> came is Nothing,
        final(b).channels() == old(b).channels(),
{
    lemma_beacon_is_read(node_a, *target, node_b);
}

/// Events change the channel of their peer as they say, and no other; a peer without a channel
/// gets none by them.
pub proof fn lemma_channel_events(
    channel: &mut DirectChannel,
    event: DirectChannelEvent,
    now: u64,
    r: Option<EventPubSubPayload>,
    peer: NodeId,
    other: Seq<u8>,
)
    requires
        call_ensures(DirectChannel::handle_event, (channel, event, now), r),
        old(channel).channels().dom().contains(peer@),
        old(channel).channels()[peer@].message_count < u64::MAX,
    ensures
        ({
            let before = old(channel).channels()[peer@];
            let after = final(channel).channels()[peer@];
            &&& event == DirectChannelEvent::PeerConnected(peer) ==> after.status is Connected
                && after.last_activity == now && after.last_heartbeat == now && after.message_count
                == before.message_count
            &&& event == DirectChannelEvent::PeerDisconnected(peer) ==> after.status is Disconnected
                && after.message_count == before.message_count && after.last_activity
                == before.last_activity
            &&& event == DirectChannelEvent::HeartbeatReceived(peer) ==> after.status
                == before.status && after.last_activity == now && after.last_heartbeat == now
            &&& event == DirectChannelEvent::HeartbeatTimeout(peer) ==> after.status
                == StatusModel::Error("Heartbeat timeout"@)
            &&& event is MessageReceived && event->MessageReceived_peer == peer
                && event->MessageReceived_payload@.len() <= 1_048_576 ==> after.message_count
                == before.message_count + 1 && after.last_activity == now && after.status
                == before.status
            &&& event is MessageReceived && event->MessageReceived_payload@.len() > 1_048_576
                ==> after == before
            &&& event is MessageSent ==> after == before
        }),
        r is Some ==> event is MessageReceived,
        event is MessageReceived ==> (r is Some <==> event->MessageReceived_payload@.len()
            <= 1_048_576),
        final(channel).channels().dom() == old(channel).channels().dom(),
        event == DirectChannelEvent::PeerConnected(peer) && other != peer@ && old(channel).channels().dom().contains(other) ==> final(channel).channels()[other] == old(channel).channels()[other],
{
    assert(final(channel).channels().dom() =~= old(channel).channels().dom());
}

/// The peers that get a heartbeat are those that are connected and got none for more than half a
/// minute; each is told once.
pub proof fn lemma_heartbeats(channel: &DirectChannel, now: u64, r: Vec<NodeId>, peer: Seq<u8>)
    requires
        call_ensures(DirectChannel::peers_to_heartbeat, (channel, now), r),
    ensures
        keys(r@).contains(peer) <==> channel.channels().dom().contains(peer) && channel.channels()[peer].status is Connected && now > channel.channels()[peer].last_heartbeat
            + 30_000_000_000,
        keys(r@).no_duplicates(),
{
}

/// The peers that are connected again are those in error for more than half a minute and those
/// disconnected for more than a minute; each is told once.
pub proof fn lemma_reconnections(channel: &DirectChannel, now: u64, r: Vec<NodeId>, peer: Seq<u8>)
    requires
        call_ensures(DirectChannel::peers_to_reconnect, (channel, now), r),
    ensures
        keys(r@).contains(peer) <==> channel.channels().dom().contains(peer) && ((
        channel.channels()[peer].status is Error && now > channel.channels()[peer].last_activity
            + 30_000_000_000) || (channel.channels()[peer].status is Disconnected && now
            > channel.channels()[peer].last_activity + 60_000_000_000)),
        keys(r@).no_duplicates(),
{
}

/// The connected peers are those whose channels are connected; each is told once.
pub proof fn lemma_connected_peers(channel: &DirectChannel, r: Vec<NodeId>, peer: Seq<u8>)
    requires
        call_ensures(DirectChannel::list_connected_peers, (channel,), r),
    ensures
        keys(r@).contains(peer) <==> channel.channels().dom().contains(peer) && channel.channels()[peer].status is Connected,
        keys(r@).no_duplicates(),
{
}

/// Connecting a peer that is connected, or about to be, does nothing; any other is about to be
/// connected then, with nothing counted. Other channels stay.
pub proof fn lemma_connecting(
    channel: &mut DirectChannel,
    peer: NodeId,
    now: u64,
    r: ConnectStep,
    other: Seq<u8>,
)
    requires
        call_ensures(DirectChannel::connect_to_peer, (channel, peer, now), r),
    ensures
        ({
            let before = old(channel).channels();
            let after = final(channel).channels();
            let there = before.dom().contains(peer@) && (before[peer@].status is Connected
                || before[peer@].status is Connecting);
            &&& there <==> r is Done
            &&& there ==> after == before
            &&& !there ==> after.dom().contains(peer@) && after[peer@].status is Connecting
                && after[peer@].message_count == 0 && after[peer@].last_activity == now
                && after[peer@].node == peer@ && r->topic@ == after[peer@].topic
            &&& other != peer@ ==> after.dom().contains(other) == before.dom().contains(other)
            &&& other != peer@ && before.dom().contains(other) ==> after[other] == before[other]
        }),
{
}

/// Stopping lets every channel go and tells their peers, each once.
pub proof fn lemma_stop(channel: &mut DirectChannel, r: Vec<NodeId>, peer: Seq<u8>)
    requires
        call_ensures(DirectChannel::stop, (channel,), r),
    ensures
        !final(channel).is_running(),
        !final(channel).channels().dom().contains(peer),
        keys(r@).contains(peer) <==> old(channel).channels().dom().contains(peer),
        keys(r@).no_duplicates(),
{
}

/// Data on a topic is received as its sender's, a heartbeat as its sender's; the end of the topic
/// ends the listening, and anything else is passed over.
pub proof fn lemma_consumer(reception: Reception, r: ConsumerAction)
    requires
        call_ensures(DirectChannel::consumer_step, (reception,), r),
    ensures
        r is Stop <==> reception is Closed,
        r is Emit <==> reception is Message && !(reception->message.message_type
            == MessageType::Ack),
        reception is Message && reception->message.message_type == MessageType::Data ==> r
            == ConsumerAction::Emit(
            DirectChannelEvent::MessageReceived {
                peer: reception->peer,
                payload: reception->message.payload,
            },
        ),
        reception is Message && reception->message.message_type == MessageType::Heartbeat ==> r
            == ConsumerAction::Emit(DirectChannelEvent::HeartbeatReceived(reception->peer)),
{
}

} // verus!
