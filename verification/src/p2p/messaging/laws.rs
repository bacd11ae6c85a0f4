//! Who is told to join and leave, what can be sent to whom, and what events do.
use crate::entries::{lemma_kept_is_filter, lookup};
use crate::error::GuardianError;
use crate::p2p::events::EventPubSub;
use crate::p2p::messaging::one_on_one_channel::{
    lemma_channel_id_symmetric, lemma_channel_id_tells_ends, Channels,
};
use crate::p2p::messaging::{missing, CoreApiPubSub, PsTopic};
use crate::p2p::network::backend::gossip::{
    check_mesh, EpidemicPubSub, GossipAction, GossipEvent, IrohTopic, MeshWait, TopicStep,
};
use crate::p2p::node::{added, all_added, keys, lemma_removed, NodeId};
use vstd::prelude::*;

verus! {

/// The keys of one list that are not in another, in order.
proof fn lemma_missing_is_filter(v: Seq<Seq<u8>>, others: Seq<Seq<u8>>)
    ensures
        missing(v, others) == v.filter(|k: Seq<u8>| !others.contains(k)),
    decreases v.len(),
{
    reveal(Seq::filter);
    if v.len() > 0 {
        lemma_missing_is_filter(v.drop_last(), others);
    }
}

/// Looking at the peers of a topic tells exactly those that are new and exactly those that are
/// gone, in order, and remembers the present ones.
pub proof fn lemma_peers_diff(
    topic: &mut PsTopic,
    current: Vec<NodeId>,
    r: (Vec<NodeId>, Vec<NodeId>),
)
    requires
        call_ensures(PsTopic::peers_diff, (topic, current), r),
    ensures
        keys(r.0@) == keys(current@).filter(|k: Seq<u8>| !old(topic)@.members.contains(k)),
        keys(r.1@) == old(topic)@.members.filter(|k: Seq<u8>| !keys(current@).contains(k)),
        final(topic)@.members == keys(current@),
        final(topic)@.topic == old(topic)@.topic,
        final(topic)@.cancelled == old(topic)@.cancelled,
{
    let members = old(topic)@.members;
    lemma_missing_is_filter(keys(current@), members);
    lemma_missing_is_filter(members, keys(current@));
}

/// Joining peers are told to join the topic, and then leaving ones to leave it, each once and in
/// order.
pub proof fn lemma_peer_events(
    topic: &PsTopic,
    joining: &Vec<NodeId>,
    leaving: &Vec<NodeId>,
    r: Vec<EventPubSub>,
)
    requires
        call_ensures(PsTopic::peer_events, (topic, joining, leaving), r),
    ensures
        r@.len() == joining@.len() + leaving@.len(),
        forall|i: int|
            0 <= i < joining@.len() ==> (#[trigger] r@[i]) is Join && r@[i]->Join_peer
                == joining@[i] && r@[i]->Join_topic@ == topic@.topic,
        forall|i: int|
            0 <= i < leaving@.len() ==> (#[trigger] r@[joining@.len() + i]) is Leave
                && r@[joining@.len() + i]->Leave_peer == leaving@[i] && r@[joining@.len()
                + i]->Leave_topic@ == topic@.topic,
{
    assert forall|i: int| 0 <= i < leaving@.len() implies (#[trigger] r@[joining@.len() + i])
        is Leave && r@[joining@.len() + i]->Leave_peer == leaving@[i] && r@[joining@.len()
        + i]->Leave_topic@ == topic@.topic by {
        let event = r@[joining@.len() + i];
        assert(event is Leave);
    }
}

/// A message is published exactly where it is not empty and nothing was cancelled.
pub proof fn lemma_publish(
    topic: &PsTopic,
    message: &[u8],
    all_cancelled: bool,
    r: Result<(), GuardianError>,
)
    requires
        call_ensures(PsTopic::publish, (topic, message, all_cancelled), r),
    ensures
        r is Ok <==> message@.len() > 0 && !topic@.cancelled && !all_cancelled,
{
}

/// A topic that was subscribed to is watched, with its members and whether it was cancelled as
/// they were if it was watched before; other topics are watched as before.
pub proof fn lemma_topic_subscribe(topics: &mut CoreApiPubSub, topic: &str, other: Seq<char>)
    requires
        call_ensures(CoreApiPubSub::topic_subscribe, (topics, topic), ()),
    ensures
        lookup(final(topics).entries(), topic@) is Some,
        lookup(old(topics).entries(), topic@) is Some ==> lookup(final(topics).entries(), topic@)
            == lookup(old(topics).entries(), topic@),
        lookup(old(topics).entries(), topic@) is None ==> {
            let watched = lookup(final(topics).entries(), topic@)->0@;
            watched.topic == topic@ && watched.members.len() == 0 && !watched.cancelled
        },
        other != topic@ ==> lookup(final(topics).entries(), other) == lookup(
            old(topics).entries(),
            other,
        ),
{
    if lookup(old(topics).entries(), topic@) is None {
        let t = choose|t: PsTopic|
            t@.topic == topic@ && t@.members == Seq::<Seq<u8>>::empty() && !t@.cancelled
                && final(topics).entries() == #[trigger] crate::entries::with_entry(
                old(topics).entries(),
                topic@,
                t,
            );
        crate::entries::lemma_lookup_with_entry(old(topics).entries(), topic@, t, topic@);
        crate::entries::lemma_lookup_with_entry(old(topics).entries(), topic@, t, other);
    }
}

/// Cleaning up keeps exactly the topics that were not cancelled, in order, and tells how many
/// were; where all were cancelled, none is kept.
pub proof fn lemma_cleanup(topics: &mut CoreApiPubSub, r: usize)
    requires
        call_ensures(CoreApiPubSub::cleanup_cancelled_topics, (topics,), r),
    ensures
        final(topics).entries() == old(topics).entries().filter(
            |e: (Seq<char>, PsTopic)| !e.1@.cancelled && !old(topics).all_cancelled(),
        ),
        r + final(topics).entries().len() == old(topics).entries().len(),
{
    let all = old(topics).all_cancelled();
    let entries = old(topics).entries();
    let active = crate::p2p::messaging::is_active(all);
    lemma_kept_is_filter(entries, active);
    assert((|e: (Seq<char>, PsTopic)| active(e.1)) =~= (
    |e: (Seq<char>, PsTopic)| !e.1@.cancelled && !all));
    entries.lemma_filter_len(|e: (Seq<char>, PsTopic)| active(e.1));
}

/// The counts of topics: all that are watched, and of them those that were not cancelled.
pub proof fn lemma_topic_stats(topics: &CoreApiPubSub, r: (usize, usize))
    requires
        call_ensures(CoreApiPubSub::topic_stats, (topics,), r),
    ensures
        r.0 == topics.entries().len(),
        r.1 == topics.entries().filter(
            |e: (Seq<char>, PsTopic)| !e.1@.cancelled && !topics.all_cancelled(),
        ).len(),
{
    let all = topics.all_cancelled();
    let active = crate::p2p::messaging::is_active(all);
    lemma_kept_is_filter(topics.entries(), active);
    assert((|e: (Seq<char>, PsTopic)| active(e.1)) =~= (
    |e: (Seq<char>, PsTopic)| !e.1@.cancelled && !all));
}

/// Two nodes call the channel between them by the same name, and a node calls its channels with
/// different peers by different names.
pub proof fn lemma_channel_names(
    a: &Channels,
    p: &NodeId,
    with_p: String,
    b: &Channels,
    q: &NodeId,
    with_q: String,
    own: NodeId,
    other: NodeId,
)
    requires
        call_ensures(Channels::get_channel_id, (a, p), with_p),
        call_ensures(Channels::get_channel_id, (b, q), with_q),
        own@ == a.own(),
        other@ == b.own(),
    ensures
        p@ == b.own() && q@ == a.own() ==> with_p@ == with_q@,
        a.own() == b.own() && p@ != q@ ==> with_p@ != with_q@,
{
    lemma_channel_id_symmetric(own, *p);
    lemma_channel_id_symmetric(other, *q);
    if with_p@ == with_q@ {
        lemma_channel_id_tells_ends(own, *p, other, *q);
    }
}

/// Data can be sent to a peer exactly where there is a channel with it: from the time it was
/// subscribed to until it is monitored no more or everything is shut down.
pub proof fn lemma_channel_is_used(
    channels: &mut Channels,
    target: &NodeId,
    later: &Channels,
    p: &NodeId,
    sent: Result<(), GuardianError>,
    connected: Option<String>,
)
    requires
        call_ensures(Channels::subscribed, (channels, target), ()),
        later.peers() == final(channels).peers(),
        call_ensures(Channels::send, (later, p), sent),
        call_ensures(Channels::connect, (later, p), connected),
    ensures
        sent is Ok <==> p@ == target@ || old(channels).peers().contains(p@),
        connected is None <==> sent is Ok,
{
}

/// A channel that ended, or everything that was shut down, is used no more.
pub proof fn lemma_channel_ends(
    channels: &mut Channels,
    target: &NodeId,
    later: &Channels,
    p: &NodeId,
    sent: Result<(), GuardianError>,
)
    requires
        call_ensures(Channels::monitor_ended, (channels, target), ()),
        later.peers() == final(channels).peers(),
        call_ensures(Channels::send, (later, p), sent),
    ensures
        sent is Ok <==> p@ != target@ && old(channels).peers().contains(p@),
{
}

/// Nothing can be sent once everything was shut down.
pub proof fn lemma_channels_close(
    channels: &mut Channels,
    later: &Channels,
    p: &NodeId,
    sent: Result<(), GuardianError>,
)
    requires
        call_ensures(Channels::close, (channels,), ()),
        later.peers() == final(channels).peers(),
        call_ensures(Channels::send, (later, p), sent),
    ensures
        sent is Err,
{
}

/// Messages on a topic are delivered as they are. A neighbor that comes up is on the topic and is
/// told to join it, one that goes down is not and is told to leave; nobody else comes or goes,
/// and nothing else changes.
pub proof fn lemma_topic_event(
    topic: &mut IrohTopic,
    event: GossipEvent,
    r: GossipAction,
    other: Seq<u8>,
)
    requires
        call_ensures(IrohTopic::handle_event, (topic, event), r),
    ensures
        ({
            let before = old(topic)@;
            let after = final(topic)@;
            &&& event is Received ==> r is Deliver && r->Deliver_0 == event->Received_0
                && after.peers == before.peers
            &&& event is NeighborUp ==> {
                &&& after.peers.contains(event->NeighborUp_0@)
                &&& after.peers.contains(other) <==> before.peers.contains(other) || other
                    == event->NeighborUp_0@
                &&& r is Announce && r->Announce_0 is Join && r->Announce_0->Join_peer
                    == event->NeighborUp_0 && r->Announce_0->Join_topic@ == before.name
            }
            &&& event is NeighborDown ==> {
                &&& after.peers.contains(other) <==> before.peers.contains(other) && other
                    != event->NeighborDown_0@
                &&& r is Announce && r->Announce_0 is Leave && r->Announce_0->Leave_peer
                    == event->NeighborDown_0 && r->Announce_0->Leave_topic@ == before.name
            }
            &&& event is Lagged ==> r is Ignore && after.peers == before.peers
            &&& event is Failed ==> r is Stop && after.peers == before.peers
            &&& after.name == before.name
            &&& after.id == before.id
            &&& after.bootstrap == before.bootstrap
        }),
{
    let peers = old(topic)@.peers;
    match event {
        GossipEvent::NeighborUp(peer) => {
            lemma_added(peers, peer@, other);
            lemma_added(peers, peer@, peer@);
        },
        GossipEvent::NeighborDown(peer) => {
            lemma_removed(peers, peer@, other);
        },
        _ => {},
    }
}

/// A key that was added is there, and every other key as before.
proof fn lemma_added(v: Seq<Seq<u8>>, key: Seq<u8>, other: Seq<u8>)
    ensures
        added(v, key).contains(other) <==> v.contains(other) || other == key,
{
    let after = v.push(key);
    assert(after[v.len() as int] == key);
    if v.contains(other) {
        let i = choose|i: int| 0 <= i < v.len() && v[i] == other;
        assert(after[i] == other);
    }
    if after.contains(other) && other != key {
        let i = choose|i: int| 0 <= i < after.len() && after[i] == other;
        assert(v[i] == other);
    }
}

/// Keys that were added are there, and every other key as before.
proof fn lemma_all_are_added(v: Seq<Seq<u8>>, more: Seq<Seq<u8>>, other: Seq<u8>)
    ensures
        all_added(v, more).contains(other) <==> v.contains(other) || more.contains(other),
    decreases more.len(),
{
    if more.len() > 0 {
        let front = more.drop_last();
        lemma_all_are_added(v, front, other);
        lemma_added(all_added(v, front), more.last(), other);
        if more.contains(other) {
            let i = choose|i: int| 0 <= i < more.len() && more[i] == other;
            if i < front.len() {
                assert(front[i] == other);
            }
        }
        if front.contains(other) {
            let i = choose|i: int| 0 <= i < front.len() && front[i] == other;
            assert(more[i] == other);
        }
        assert(more[more.len() - 1] == more.last());
    }
}

/// A topic that is not there is to be subscribed to through the peers that are given; one that
/// is there takes them in, and they are to be joined if there are any.
pub proof fn lemma_topic_with_peers(
    topics: &mut EpidemicPubSub,
    topic: &str,
    peers: &Vec<NodeId>,
    r: TopicStep,
    other: Seq<u8>,
    name: Seq<char>,
)
    requires
        call_ensures(EpidemicPubSub::get_or_create_topic_with_peers, (topics, topic, peers), r),
    ensures
        ({
            let before = old(topics).topic(topic@);
            let after = final(topics).topic(topic@);
            &&& before is None <==> r is Subscribe
            &&& before is Some && peers@.len() == 0 <==> r is Ready
            &&& r is Subscribe ==> r->Subscribe_peers@ == peers@ && after is None
            &&& r is Join ==> r->Join_peers@ == peers@
            &&& before is Some ==> after is Some && after->0.peers == before->0.peers && (
            after->0.bootstrap.contains(other) <==> before->0.bootstrap.contains(other) || keys(
                peers@,
            ).contains(other))
            &&& name != topic@ ==> final(topics).topic(name) == old(topics).topic(name)
        }),
{
    let before = old(topics).topic(topic@);
    assert(final(topics).topic(topic@) == final(topics).topic(topic@));
    assert(final(topics).topic(name) == final(topics).topic(name));
    if before is Some {
        lemma_all_are_added(before->0.bootstrap, keys(peers@), other);
    }
}

/// A topic that was subscribed to can be published to; one that was not cannot.
pub proof fn lemma_subscribed_topic(
    topics: &mut EpidemicPubSub,
    topic: &str,
    peers: Vec<NodeId>,
    later: &EpidemicPubSub,
    name: &str,
    r: Result<(), GuardianError>,
)
    requires
        call_ensures(EpidemicPubSub::subscribed, (topics, topic, peers), ()),
        later.topic(name@) == final(topics).topic(name@),
        call_ensures(EpidemicPubSub::publish_to_topic, (later, name), r),
    ensures
        r is Ok <==> name@ == topic@ || old(topics).topic(name@) is Some,
        old(topics).topic(topic@) is None ==> final(topics).topic(topic@) is Some && final(topics).topic(topic@)->0.bootstrap == keys(peers@) && final(topics).topic(
            topic@,
        )->0.peers.len() == 0,
{
    assert(final(topics).topic(name@) == if name@ == topic@ && old(topics).topic(name@) is None {
        Some(crate::p2p::network::backend::gossip::new_topic(topic@, keys(peers@)))
    } else {
        old(topics).topic(name@)
    });
}

/// Whether a node is in a list.
pub open spec fn is_listed(nodes: Seq<NodeId>, node: Seq<u8>) -> bool {
    exists|j: int| 0 <= j < nodes.len() && (#[trigger] nodes[j])@ == node
}

/// A mesh is formed exactly where every expected peer is connected; otherwise it is looked at
/// again until it was looked at twenty times.
pub proof fn lemma_mesh(
    expected: &Vec<NodeId>,
    connected: &Vec<NodeId>,
    retry_count: u32,
    r: MeshWait,
)
    requires
        call_ensures(check_mesh, (expected, connected, retry_count), r),
    ensures
        r == MeshWait::Formed <==> forall|i: int|
            0 <= i < expected@.len() ==> is_listed(connected@, (#[trigger] expected@[i])@),
        r != MeshWait::Formed ==> (r == MeshWait::TimedOut <==> retry_count >= 19),
        r is Retry ==> r->Retry_0 == retry_count + 1,
{
    let a = keys(expected@);
    let b = keys(connected@);
    assert forall|i: int| 0 <= i < expected@.len() implies b.contains(a[i]) == is_listed(
        connected@,
        (#[trigger] expected@[i])@,
    ) by {
        if b.contains(a[i]) {
            let j = choose|j: int| 0 <= j < b.len() && b[j] == a[i];
            assert(connected@[j]@ == expected@[i]@);
        }
        if is_listed(connected@, expected@[i]@) {
            let j = choose|j: int|
                0 <= j < connected@.len() && (#[trigger] connected@[j])@ == expected@[i]@;
            assert(b[j] == a[i]);
        }
    }
    if crate::p2p::network::backend::gossip::mesh_formed(a, b) {
        assert forall|i: int| 0 <= i < expected@.len() implies is_listed(
            connected@,
            (#[trigger] expected@[i])@,
        ) by {
            assert(b.contains(a[i]));
        }
    } else {
        let i = choose|i: int| 0 <= i < a.len() && !b.contains(#[trigger] a[i]);
        assert(!is_listed(connected@, expected@[i]@));
    }
}

} // verus!
