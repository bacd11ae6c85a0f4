//! Channels between two peers, by name.
use crate::error::{outcome, Failure, GuardianError};
use crate::hexadecimal;
use crate::hexadecimal::hex_text;
use crate::idmap::IdMap;
use crate::p2p::events::{new_event_payload, EventPubSubPayload};
use crate::p2p::node::NodeId;
use crate::text;
use crate::text::{text_lt, Relation};
use vstd::prelude::*;

verus! {

/// The protocol of channels between two peers.
pub const PROTOCOL: &'static str = "/guardian-db/one-on-one-channel/1";

/// The name of the channel between two nodes: the protocol and the two, in order.
pub open spec fn channel_id(a: Seq<u8>, b: Seq<u8>) -> Seq<char> {
    if text_lt(hex_text(b), hex_text(a)) {
        PROTOCOL@ + "/"@ + hex_text(b) + "/"@ + hex_text(a)
    } else {
        PROTOCOL@ + "/"@ + hex_text(a) + "/"@ + hex_text(b)
    }
}

/// The name of the channel between two nodes.
pub fn channel_id_of(a: &NodeId, b: &NodeId) -> (r: String)
    ensures
        r@ == channel_id(a@, b@),
{
    let first: String = a.render();
    let second: String = b.render();
    match text::relate(second.as_str(), first.as_str()) {
        Relation::Before => text::join5(PROTOCOL, "/", second.as_str(), "/", first.as_str()),
        _ => text::join5(PROTOCOL, "/", first.as_str(), "/", second.as_str()),
    }
}

/// Both ends of a channel call it by the same name.
pub proof fn lemma_channel_id_symmetric(a: NodeId, b: NodeId)
    ensures
        channel_id(a@, b@) == channel_id(b@, a@),
{
    text::lemma_text_lt_total(hex_text(a@), hex_text(b@));
    if text_lt(hex_text(a@), hex_text(b@)) && text_lt(hex_text(b@), hex_text(a@)) {
        text::lemma_text_lt_transitive(hex_text(a@), hex_text(b@), hex_text(a@));
        text::lemma_text_lt_irreflexive(hex_text(a@));
    }
}

/// The name of a channel tells its two ends: another pair has another name.
pub proof fn lemma_channel_id_tells_ends(a: NodeId, b: NodeId, c: NodeId, d: NodeId)
    requires
        channel_id(a@, b@) == channel_id(c@, d@),
    ensures
        (a@ == c@ && b@ == d@) || (a@ == d@ && b@ == c@),
{
    lemma_ends_of(a@, b@);
    lemma_ends_of(c@, d@);
    hexadecimal::lemma_hex_round_trip(a@);
    hexadecimal::lemma_hex_round_trip(b@);
    hexadecimal::lemma_hex_round_trip(c@);
    hexadecimal::lemma_hex_round_trip(d@);
}

/// Where the two ends stand in the name of a channel.
proof fn lemma_ends_of(a: Seq<u8>, b: Seq<u8>)
    requires
        a.len() == 32,
        b.len() == 32,
    ensures
        ({
            let name = channel_id(a, b);
            let n = PROTOCOL@.len() as int;
            let first = name.subrange(n + 1, n + 65);
            let second = name.subrange(n + 66, n + 130);
            (first == hex_text(a) && second == hex_text(b)) || (first == hex_text(b) && second
                == hex_text(a))
        }),
{
    reveal_strlit("/");
    let n = PROTOCOL@.len() as int;
    let name = channel_id(a, b);
    if text_lt(hex_text(b), hex_text(a)) {
        assert(name.subrange(n + 1, n + 65) =~= hex_text(b));
        assert(name.subrange(n + 66, n + 130) =~= hex_text(a));
    } else {
        assert(name.subrange(n + 1, n + 65) =~= hex_text(a));
        assert(name.subrange(n + 66, n + 130) =~= hex_text(b));
    }
}

/// The channels of a node: the peers that it is subscribed to a channel with.
#[derive(Debug)]
pub struct Channels {
    subs: IdMap<String>,
    self_id: NodeId,
    cancelled: bool,
}

impl Channels {
    /// The node itself.
    pub closed spec fn own(self) -> Seq<u8> {
        self.self_id@
    }

    /// The peers that there is a channel with.
    pub closed spec fn peers(self) -> Set<Seq<u8>> {
        self.subs@.dom()
    }

    /// Whether everything was shut down.
    pub closed spec fn is_closed(self) -> bool {
        self.cancelled
    }

    /// A node without channels.
    pub fn new(self_id: NodeId) -> (r: Channels)
        ensures
            r.own() == self_id@,
            r.peers() == Set::<Seq<u8>>::empty(),
            !r.is_closed(),
    {
        Channels { subs: IdMap::new(), self_id, cancelled: false }
    }

    /// The name of the channel with a peer.
    pub fn get_channel_id(&self, p: &NodeId) -> (r: String)
        ensures
            r@ == channel_id(self.own(), p@),
    {
        channel_id_of(&self.self_id, p)
    }

    /// The name of the channel that is to be subscribed to so that there is one with a
    /// peer; none if there is.
    pub fn connect(&self, target: &NodeId) -> (r: Option<String>)
        ensures
            match r {
                Some(id) => !self.peers().contains(target@) && id@ == channel_id(
                    self.own(),
                    target@,
                ),
                None => self.peers().contains(target@),
            },
    {
        if self.subs.contains(&target.bytes) {
            None
        } else {
            Some(self.get_channel_id(target))
        }
    }

    /// Notes that the channel with a peer was subscribed to.
    pub fn subscribed(&mut self, target: &NodeId)
        ensures
            final(self).peers() == old(self).peers().insert(target@),
            final(self).own() == old(self).own(),
            final(self).is_closed() == old(self).is_closed(),
    {
        let id: String = self.get_channel_id(target);
        self.subs.insert(target.bytes, id);
        assert(self.peers() =~= old(self).peers().insert(target@));
    }

    /// Notes that the channel with a peer is monitored no more.
    pub fn monitor_ended(&mut self, target: &NodeId)
        ensures
            final(self).peers() == old(self).peers().remove(target@),
            final(self).own() == old(self).own(),
            final(self).is_closed() == old(self).is_closed(),
    {
        let _ = self.subs.remove(&target.bytes);
        assert(self.peers() =~= old(self).peers().remove(target@));
    }

    /// Checks that there is a channel with a peer, so that data can be sent.
    pub fn send(&self, p: &NodeId) -> (r: Result<(), GuardianError>)
        ensures
            outcome(r) == if self.peers().contains(p@) {
                Ok::<(), Failure>(())
            } else {
                Err(
                    Failure::Other(
                        "Peer "@ + hex_text(p@) + " is not connected. Call connect() first."@,
                    ),
                )
            },
    {
        if self.subs.contains(&p.bytes) {
            Ok(())
        } else {
            let id: String = p.render();
            Err(
                GuardianError::Other(
                    text::join3("Peer ", id.as_str(), " is not connected. Call connect() first."),
                ),
            )
        }
    }

    /// The error that data could not be published, for a reason.
    pub fn publish_error(detail: &str) -> (r: GuardianError)
        ensures
            r@ == Failure::Other("failed to publish data via iroh-gossip: "@ + detail@),
    {
        GuardianError::Other(text::join2("failed to publish data via iroh-gossip: ", detail))
    }

    /// The event that a message on the channel with a peer makes.
    pub fn received(p: NodeId, content: Vec<u8>) -> (r: EventPubSubPayload)
        ensures
            r == (EventPubSubPayload { payload: content, peer: p }),
    {
        new_event_payload(content, p)
    }

    /// Shuts everything down.
    pub fn close(&mut self)
        ensures
            final(self).is_closed(),
            final(self).peers() == Set::<Seq<u8>>::empty(),
            final(self).own() == old(self).own(),
    {
        self.cancelled = true;
        self.subs = IdMap::new();
    }
}

} // verus!
