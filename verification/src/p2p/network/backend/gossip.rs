//! Gossip topics: who is on them and what happens on them.
//!
//! The network subscribes, joins and broadcasts; the state kept here decides
//! what it is asked to do and takes in what it reports.
use crate::bytes::utf8;
use crate::crypto;
use crate::crypto::blake3_digest;
use crate::entries::{
    lemma_lookup_replaced, lemma_lookup_with_entry, lemma_replaced_at, lookup, replaced, TextMap,
};
use crate::error::{outcome, Failure, GuardianError};
use crate::p2p::events::{new_event_peer_join, new_event_peer_leave, EventPubSub};
use crate::p2p::node;
use crate::p2p::node::{added, all_added, distinct, keys, removed, NodeId};
use crate::text;
use vstd::prelude::*;

verus! {

/// How often a mesh is looked at before it is given up on.
pub const MAX_RETRIES: u32 = 20;

/// The identifier of a topic: the BLAKE3 digest of its name.
pub fn topic_id_from_str(topic: &str) -> (r: [u8; 32])
    ensures
        r@ == blake3_digest(utf8(topic@)),
{
    crypto::blake3(topic.as_bytes())
}

/// A topic: the peers that are on it, and those it was entered through.
#[derive(Debug)]
pub struct IrohTopic {
    pub topic_name: String,
    pub topic_id: [u8; 32],
    pub peers: Vec<NodeId>,
    pub bootstrap_peers: Vec<NodeId>,
}

/// The model of a topic.
#[verifier::ext_equal]
pub struct TopicModel {
    pub name: Seq<char>,
    pub id: Seq<u8>,
    pub peers: Seq<Seq<u8>>,
    pub bootstrap: Seq<Seq<u8>>,
}

impl View for IrohTopic {
    type V = TopicModel;

    open spec fn view(&self) -> TopicModel {
        TopicModel {
            name: self.topic_name@,
            id: self.topic_id@,
            peers: keys(self.peers@),
            bootstrap: keys(self.bootstrap_peers@),
        }
    }
}

/// What the network reports of a topic.
#[derive(Debug)]
pub enum GossipEvent {
    /// A message was received.
    Received(Vec<u8>),
    /// A peer is now a neighbor.
    NeighborUp(NodeId),
    /// A peer is a neighbor no more.
    NeighborDown(NodeId),
    /// Messages were missed.
    Lagged,
    /// The stream of events failed.
    Failed,
}

/// What is to be done about an event.
#[derive(Debug)]
pub enum GossipAction {
    /// Hand a message to the topic's subscribers.
    Deliver(Vec<u8>),
    /// Tell the topic's watchers about a peer.
    Announce(EventPubSub),
    /// Nothing.
    Ignore,
    /// Stop listening to the topic.
    Stop,
}

/// A topic that was just entered through some peers.
pub open spec fn new_topic(name: Seq<char>, bootstrap: Seq<Seq<u8>>) -> TopicModel {
    TopicModel { name, id: blake3_digest(utf8(name)), peers: Seq::empty(), bootstrap }
}

/// A topic once an event was taken in: neighbors come and go.
pub open spec fn topic_after(topic: TopicModel, event: GossipEvent) -> TopicModel {
    match event {
        GossipEvent::NeighborUp(peer) => TopicModel { peers: added(topic.peers, peer@), ..topic },
        GossipEvent::NeighborDown(peer) => TopicModel {
            peers: removed(topic.peers, peer@),
            ..topic
        },
        _ => topic,
    }
}

/// Whether an action is the one that an event calls for.
pub open spec fn answers(topic: TopicModel, event: GossipEvent, action: GossipAction) -> bool {
    match event {
        GossipEvent::Received(content) => action == GossipAction::Deliver(content),
        GossipEvent::NeighborUp(node) => action matches GossipAction::Announce(
            EventPubSub::Join { topic: name, peer },
        ) && name@ == topic.name && peer == node,
        GossipEvent::NeighborDown(node) => action matches GossipAction::Announce(
            EventPubSub::Leave { topic: name, peer },
        ) && name@ == topic.name && peer == node,
        GossipEvent::Lagged => action is Ignore,
        GossipEvent::Failed => action is Stop,
    }
}

impl IrohTopic {
    /// A topic that was just entered through some peers.
    pub fn new(topic: &str, bootstrap_peers: Vec<NodeId>) -> (r: IrohTopic)
        ensures
            r@ == new_topic(topic@, keys(bootstrap_peers@)),
    {
        let r = IrohTopic {
            topic_name: text::owned(topic),
            topic_id: topic_id_from_str(topic),
            peers: Vec::new(),
            bootstrap_peers,
        };
        assert(r@ =~= new_topic(topic@, keys(bootstrap_peers@)));
        r
    }

    /// Takes in an event; tells what is to be done about it.
    pub fn handle_event(&mut self, event: GossipEvent) -> (r: GossipAction)
        ensures
            final(self)@ == topic_after(old(self)@, event),
            answers(old(self)@, event, r),
    {
        match event {
            GossipEvent::Received(content) => GossipAction::Deliver(content),
            GossipEvent::NeighborUp(peer) => {
                node::add(&mut self.peers, &peer);
                GossipAction::Announce(new_event_peer_join(peer, self.topic_name.clone()))
            },
            GossipEvent::NeighborDown(peer) => {
                node::remove(&mut self.peers, &peer);
                GossipAction::Announce(new_event_peer_leave(peer, self.topic_name.clone()))
            },
            GossipEvent::Lagged => GossipAction::Ignore,
            GossipEvent::Failed => GossipAction::Stop,
        }
    }

    /// The peers that are on the topic.
    pub fn list_peers(&self) -> (r: Vec<NodeId>)
        ensures
            r@ == self.peers@,
    {
        node::copy(&self.peers)
    }

    /// The name of the topic.
    pub fn topic(&self) -> (r: &str)
        ensures
            r@ == self@.name,
    {
        self.topic_name.as_str()
    }
}

/// What the network is asked to do so that a topic is there.
#[derive(Debug)]
pub enum TopicStep {
    /// The topic is there and no peer is to be added.
    Ready,
    /// The topic is there: peers are to be added to its mesh, and waited for.
    Join { peers: Vec<NodeId> },
    /// The topic is not there: it is to be subscribed to through the peers.
    Subscribe { topic_id: [u8; 32], peers: Vec<NodeId> },
}

/// What comes of looking at a mesh that peers were added to.
#[derive(Clone, Copy, PartialEq, Eq, Structural, Debug)]
pub enum MeshWait {
    /// All of them are neighbors.
    Formed,
    /// Not all of them are, and it was looked at often enough.
    TimedOut,
    /// Not all of them are: look again later, having looked so often.
    Retry(u32),
}

/// Whether every expected peer is connected.
pub open spec fn mesh_formed(expected: Seq<Seq<u8>>, connected: Seq<Seq<u8>>) -> bool {
    forall|i: int| 0 <= i < expected.len() ==> connected.contains(#[trigger] expected[i])
}

/// What comes of looking at a mesh, after it was looked at `retry_count` times before.
pub open spec fn mesh_wait(
    expected: Seq<Seq<u8>>,
    connected: Seq<Seq<u8>>,
    retry_count: u32,
) -> MeshWait {
    if mesh_formed(expected, connected) {
        MeshWait::Formed
    } else if retry_count + 1 >= MAX_RETRIES {
        MeshWait::TimedOut
    } else {
        MeshWait::Retry((retry_count + 1) as u32)
    }
}

/// Looks at a mesh that peers were added to.
pub fn check_mesh(expected: &Vec<NodeId>, connected: &Vec<NodeId>, retry_count: u32) -> (r: MeshWait)
    ensures
        r == mesh_wait(keys(expected@), keys(connected@), retry_count),
{
    if node::all_in(expected, connected) {
        assert(mesh_formed(keys(expected@), keys(connected@)));
        MeshWait::Formed
    } else if retry_count >= MAX_RETRIES - 1 {
        MeshWait::TimedOut
    } else {
        MeshWait::Retry(retry_count + 1)
    }
}

/// Waiting for a mesh comes nearer to its end with each look.
pub proof fn lemma_mesh_wait_ends(
    expected: Seq<Seq<u8>>,
    connected: Seq<Seq<u8>>,
    retry_count: u32,
)
    ensures
        mesh_wait(expected, connected, retry_count) matches MeshWait::Retry(next) ==> retry_count
            < next < MAX_RETRIES,
{
}

/// The topics of a node.
#[derive(Debug)]
pub struct EpidemicPubSub {
    topics: TextMap<IrohTopic>,
}

/// The model of an optional topic.
pub open spec fn topic_model(topic: Option<IrohTopic>) -> Option<TopicModel> {
    match topic {
        Some(t) => Some(t@),
        None => None,
    }
}

/// A topic once peers were given to enter it through.
pub open spec fn topic_with_peers(topic: TopicModel, peers: Seq<Seq<u8>>) -> TopicModel {
    TopicModel { bootstrap: all_added(topic.bootstrap, peers), ..topic }
}

impl EpidemicPubSub {
    /// The topic of a name.
    pub closed spec fn topic(self, name: Seq<char>) -> Option<TopicModel> {
        topic_model(lookup(self.topics@, name))
    }

    /// A node without topics.
    pub fn new() -> (r: EpidemicPubSub)
        ensures
            forall|name: Seq<char>| #[trigger] r.topic(name) is None,
    {
        EpidemicPubSub { topics: TextMap::new() }
    }

    /// Decides what is to be done so that a topic is there with some peers. Peers
    /// of a topic that is there already are noted at once.
    pub fn get_or_create_topic_with_peers(
        &mut self,
        topic: &str,
        bootstrap_peers: &Vec<NodeId>,
    ) -> (r: TopicStep)
        ensures
            match old(self).topic(topic@) {
                None => r matches TopicStep::Subscribe { topic_id, peers } && topic_id@
                    == blake3_digest(utf8(topic@)) && peers@ == bootstrap_peers@,
                Some(_) => if bootstrap_peers@.len() == 0 {
                    r is Ready
                } else {
                    r matches TopicStep::Join { peers } && peers@ == bootstrap_peers@
                },
            },
            forall|name: Seq<char>|
                #[trigger] final(self).topic(name) == if name == topic@ && old(self).topic(
                    name,
                ) is Some {
                    Some(topic_with_peers(old(self).topic(name)->0, keys(bootstrap_peers@)))
                } else {
                    old(self).topic(name)
                },
    {
        let ghost before = self.topics@;
        match self.topics.position(topic) {
            None => TopicStep::Subscribe {
                topic_id: topic_id_from_str(topic),
                peers: node::copy(bootstrap_peers),
            },
            Some(i) => {
                let existing: &mut IrohTopic = self.topics.value_mut(i);
                let ghost had = existing@;
                node::add_all(&mut existing.bootstrap_peers, bootstrap_peers);
                proof {
                    let now = *existing;
                    assert(now@ =~= topic_with_peers(had, keys(bootstrap_peers@)));
                    lemma_replaced_at(before, topic@, now, i as int);
                    assert forall|name: Seq<char>| topic_model(
                        #[trigger] lookup(replaced(before, topic@, now), name),
                    ) == if name == topic@ {
                        Some(topic_with_peers(had, keys(bootstrap_peers@)))
                    } else {
                        topic_model(lookup(before, name))
                    } by {
                        lemma_lookup_replaced(before, topic@, now, name);
                    }
                }
                if bootstrap_peers.len() == 0 {
                    TopicStep::Ready
                } else {
                    TopicStep::Join { peers: node::copy(bootstrap_peers) }
                }
            },
        }
    }

    /// Notes that a topic was subscribed to; one that is there by now stays as it is.
    pub fn subscribed(&mut self, topic: &str, bootstrap_peers: Vec<NodeId>)
        ensures
            final(self).topic(topic@) is Some,
            forall|name: Seq<char>|
                #[trigger] final(self).topic(name) == if name == topic@ && old(self).topic(
                    name,
                ) is None {
                    Some(new_topic(topic@, keys(bootstrap_peers@)))
                } else {
                    old(self).topic(name)
                },
    {
        if !self.topics.contains_key(topic) {
            let ghost before = self.topics@;
            let entered: IrohTopic = IrohTopic::new(topic, bootstrap_peers);
            self.topics.insert(text::owned(topic), entered);
            assert forall|name: Seq<char>| topic_model(#[trigger] lookup(self.topics@, name))
                == if name == topic@ {
                Some(new_topic(topic@, keys(bootstrap_peers@)))
            } else {
                topic_model(lookup(before, name))
            } by {
                lemma_lookup_with_entry(before, topic@, entered, name);
            }
        }
    }

    /// The topic of a name, if there is one.
    pub fn get_topic(&self, topic: &str) -> (r: Option<&IrohTopic>)
        ensures
            match self.topic(topic@) {
                Some(model) => r is Some && r->0@ == model,
                None => r is None,
            },
    {
        self.topics.get(topic)
    }

    /// Takes in an event on a topic; events on topics that are not there are ignored.
    pub fn handle_event(&mut self, topic: &str, event: GossipEvent) -> (r: GossipAction)
        ensures
            match old(self).topic(topic@) {
                Some(model) => answers(model, event, r),
                None => r is Ignore,
            },
            forall|name: Seq<char>|
                #[trigger] final(self).topic(name) == if name == topic@ && old(self).topic(
                    name,
                ) is Some {
                    Some(topic_after(old(self).topic(name)->0, event))
                } else {
                    old(self).topic(name)
                },
    {
        let ghost before = self.topics@;
        match self.topics.position(topic) {
            None => GossipAction::Ignore,
            Some(i) => {
                let existing: &mut IrohTopic = self.topics.value_mut(i);
                let ghost had = existing@;
                let action: GossipAction = existing.handle_event(event);
                proof {
                    let now = *existing;
                    lemma_replaced_at(before, topic@, now, i as int);
                    assert forall|name: Seq<char>| topic_model(
                        #[trigger] lookup(replaced(before, topic@, now), name),
                    ) == if name == topic@ {
                        Some(topic_after(had, event))
                    } else {
                        topic_model(lookup(before, name))
                    } by {
                        lemma_lookup_replaced(before, topic@, now, name);
                    }
                }
                action
            },
        }
    }

    /// Checks that a topic is there to be published to.
    pub fn publish_to_topic(&self, topic: &str) -> (r: Result<(), GuardianError>)
        ensures
            outcome(r) == if self.topic(topic@) is Some {
                Ok::<(), Failure>(())
            } else {
                Err(Failure::Other("Topic "@ + topic@ + " not found - subscribe first"@))
            },
    {
        if self.topics.contains_key(topic) {
            Ok(())
        } else {
            Err(
                GuardianError::Other(
                    text::join3("Topic ", topic, " not found - subscribe first"),
                ),
            )
        }
    }
}

/// Events never make a peer occur twice on a topic.
pub proof fn lemma_topic_peers_distinct(topic: TopicModel, event: GossipEvent)
    requires
        distinct(topic.peers),
    ensures
        distinct(topic_after(topic, event).peers),
{
    match event {
        GossipEvent::NeighborUp(peer) => {
            node::lemma_distinct(topic.peers, peer@);
        },
        GossipEvent::NeighborDown(peer) => {
            node::lemma_distinct(topic.peers, peer@);
        },
        _ => {},
    }
}

/// A neighbor that came up is on the topic until it goes down; no other peer is touched.
pub proof fn lemma_neighbor_events(topic: TopicModel, peer: NodeId, other: Seq<u8>)
    ensures
        topic_after(topic, GossipEvent::NeighborUp(peer)).peers.contains(peer@),
        !topic_after(topic, GossipEvent::NeighborDown(peer)).peers.contains(peer@),
        other != peer@ ==> topic_after(topic, GossipEvent::NeighborDown(peer)).peers.contains(other)
            == topic.peers.contains(other),
{
    let up = added(topic.peers, peer@);
    if !topic.peers.contains(peer@) {
        assert(up[topic.peers.len() as int] == peer@);
    }
    node::lemma_removed(topic.peers, peer@, peer@);
    node::lemma_removed(topic.peers, peer@, other);
}

} // verus!
