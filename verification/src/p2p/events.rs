//! Events of publish and subscribe.
use crate::p2p::node::NodeId;
use vstd::prelude::*;

verus! {

/// A message on a topic.
#[derive(Debug)]
pub struct EventPubSubMessage {
    pub content: Vec<u8>,
}

/// A payload from a peer.
#[derive(Debug)]
pub struct EventPubSubPayload {
    pub payload: Vec<u8>,
    pub peer: NodeId,
}

/// A peer that joins or leaves a topic.
#[derive(Debug)]
pub enum EventPubSub {
    Join { topic: String, peer: NodeId },
    Leave { topic: String, peer: NodeId },
}

/// A message event.
pub fn new_event_message(content: Vec<u8>) -> (r: EventPubSubMessage)
    ensures
        r.content == content,
{
    EventPubSubMessage { content }
}

/// A payload event.
pub fn new_event_payload(payload: Vec<u8>, peer: NodeId) -> (r: EventPubSubPayload)
    ensures
        r.payload == payload,
        r.peer == peer,
{
    EventPubSubPayload { payload, peer }
}

/// The event that a peer joins a topic.
pub fn new_event_peer_join(peer: NodeId, topic: String) -> (r: EventPubSub)
    ensures
        r == (EventPubSub::Join { topic, peer }),
{
    EventPubSub::Join { topic, peer }
}

/// The event that a peer leaves a topic.
pub fn new_event_peer_leave(peer: NodeId, topic: String) -> (r: EventPubSub)
    ensures
        r == (EventPubSub::Leave { topic, peer }),
{
    EventPubSub::Leave { topic, peer }
}

} // verus!
