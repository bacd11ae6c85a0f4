//! Messages between peers: topics that are watched, and channels between two.
use crate::entries::{
    kept_where, lemma_flagged, lemma_kept_len, lemma_replaced_at, lookup, replaced,
    with_entry, without_entry, TextMap,
};
use crate::error::{outcome, Failure, GuardianError};
use crate::p2p::events::{new_event_peer_join, new_event_peer_leave, EventPubSub};
use crate::p2p::node;
use crate::p2p::node::{keys, NodeId};
use crate::text;
use vstd::prelude::*;

pub mod channel_laws;
pub mod direct_channel;
pub mod laws;
pub mod one_on_one_channel;

verus! {

/// The protocol of direct channels.
pub const PROTOCOL: &'static str = "/guardian-db/direct-channel/1";

/// How long a connection may take to be made, in nanoseconds.
pub const CONNECTION_TIMEOUT: u64 = 30_000_000_000;

/// How long a connection may be silent before it gets a heartbeat, in nanoseconds.
pub const HEARTBEAT_INTERVAL: u64 = 30_000_000_000;

/// The size of the largest message, in bytes.
pub const MAX_MESSAGE_SIZE: usize = 1_048_576;

/// The keys of one list that are not in another, in order.
pub open spec fn missing(v: Seq<Seq<u8>>, others: Seq<Seq<u8>>) -> Seq<Seq<u8>>
    decreases v.len(),
{
    if v.len() == 0 {
        v
    } else {
        let before = missing(v.drop_last(), others);
        if others.contains(v.last()) {
            before
        } else {
            before.push(v.last())
        }
    }
}

/// The nodes of one list that are not in another, in order.
fn not_in(v: &Vec<NodeId>, others: &Vec<NodeId>) -> (r: Vec<NodeId>)
    ensures
        keys(r@) == missing(keys(v@), keys(others@)),
{
    let mut out: Vec<NodeId> = Vec::new();
    let mut i: usize = 0;
    assert(keys(out@) =~= Seq::empty());
    assert(keys(v@).take(0) =~= Seq::empty());
    while i < v.len()
        invariant
            i <= v.len(),
            keys(out@) == missing(keys(v@).take(i as int), keys(others@)),
        decreases v.len() - i,
    {
        let ghost taken = keys(v@).take(i + 1);
        let ghost before = keys(out@);
        assert(taken.drop_last() =~= keys(v@).take(i as int));
        assert(taken.last() == v@[i as int]@);
        if !node::contains(others, &v[i]) {
            out.push(v[i]);
            assert(keys(out@) =~= before.push(v@[i as int]@));
        }
        i += 1;
    }
    assert(keys(v@).take(i as int) =~= keys(v@));
    out
}

/// A topic that is watched: its members as they were last seen.
#[derive(Debug)]
pub struct PsTopic {
    topic: String,
    members: Vec<NodeId>,
    cancelled: bool,
}

/// The model of a topic that is watched.
#[verifier::ext_equal]
pub struct PsTopicModel {
    pub topic: Seq<char>,
    pub members: Seq<Seq<u8>>,
    pub cancelled: bool,
}

impl View for PsTopic {
    type V = PsTopicModel;

    closed spec fn view(&self) -> PsTopicModel {
        PsTopicModel {
            topic: self.topic@,
            members: keys(self.members@),
            cancelled: self.cancelled,
        }
    }
}

/// Whether events tell that peers join a topic and then that others leave it.
pub open spec fn tells(
    topic: Seq<char>,
    joining: Seq<NodeId>,
    leaving: Seq<NodeId>,
    events: Seq<EventPubSub>,
) -> bool {
    &&& events.len() == joining.len() + leaving.len()
    &&& forall|i: int|
        0 <= i < joining.len() ==> (#[trigger] events[i] matches EventPubSub::Join {
            topic: name,
            peer,
        } && name@ == topic && peer == joining[i])
    &&& forall|i: int|
        joining.len() <= i < events.len() ==> (#[trigger] events[i] matches EventPubSub::Leave {
            topic: name,
            peer,
        } && name@ == topic && peer == leaving[i - joining.len()])
}

impl PsTopic {
    /// A topic that was not looked at yet.
    pub fn new(topic: &str) -> (r: PsTopic)
        ensures
            r@ == (PsTopicModel { topic: topic@, members: Seq::empty(), cancelled: false }),
    {
        let r = PsTopic { topic: text::owned(topic), members: Vec::new(), cancelled: false };
        assert(keys(r.members@) =~= Seq::empty());
        r
    }

    /// Checks that a message can be published: not to a cancelled topic, and not
    /// an empty one. `all_cancelled` tells whether all topics were cancelled.
    pub fn publish(&self, message: &[u8], all_cancelled: bool) -> (r: Result<(), GuardianError>)
        ensures
            outcome(r) == if self@.cancelled || all_cancelled {
                Err::<(), Failure>(Failure::Store("Cannot publish to cancelled topic"@))
            } else if message@.len() == 0 {
                Err(Failure::Store("Cannot publish empty message"@))
            } else {
                Ok(())
            },
    {
        if self.cancelled || all_cancelled {
            return Err(GuardianError::Store(text::owned("Cannot publish to cancelled topic")));
        }
        if message.len() == 0 {
            return Err(GuardianError::Store(text::owned("Cannot publish empty message")));
        }
        Ok(())
    }

    /// Takes in the present peers; tells which of them joined since the last
    /// time, and which of the former ones left.
    pub fn peers_diff(&mut self, current_peers: Vec<NodeId>) -> (r: (Vec<NodeId>, Vec<NodeId>))
        ensures
            keys(r.0@) == missing(keys(current_peers@), old(self)@.members),
            keys(r.1@) == missing(old(self)@.members, keys(current_peers@)),
            final(self)@ == (PsTopicModel { members: keys(current_peers@), ..old(self)@ }),
    {
        let joining: Vec<NodeId> = not_in(&current_peers, &self.members);
        let leaving: Vec<NodeId> = not_in(&self.members, &current_peers);
        self.members = current_peers;
        (joining, leaving)
    }

    /// The events that tell of peers that joined and left.
    pub fn peer_events(&self, joining: &Vec<NodeId>, leaving: &Vec<NodeId>) -> (r: Vec<
        EventPubSub,
    >)
        ensures
            tells(self@.topic, joining@, leaving@, r@),
    {
        let mut out: Vec<EventPubSub> = Vec::new();
        let mut i: usize = 0;
        while i < joining.len()
            invariant
                i <= joining.len(),
                out@.len() == i,
                forall|j: int|
                    0 <= j < i ==> (#[trigger] out@[j] matches EventPubSub::Join {
                        topic: name,
                        peer,
                    } && name@ == self@.topic && peer == joining@[j]),
            decreases joining.len() - i,
        {
            out.push(new_event_peer_join(joining[i], self.topic.clone()));
            i += 1;
        }
        let mut k: usize = 0;
        while k < leaving.len()
            invariant
                k <= leaving.len(),
                out@.len() == joining@.len() + k,
                forall|j: int|
                    0 <= j < joining@.len() ==> (#[trigger] out@[j] matches EventPubSub::Join {
                        topic: name,
                        peer,
                    } && name@ == self@.topic && peer == joining@[j]),
                forall|j: int|
                    joining@.len() <= j < out@.len() ==> (
                    #[trigger] out@[j] matches EventPubSub::Leave { topic: name, peer } && name@
                        == self@.topic && peer == leaving@[j - joining@.len()]),
            decreases leaving.len() - k,
        {
            out.push(new_event_peer_leave(leaving[k], self.topic.clone()));
            k += 1;
        }
        out
    }

    /// The name of the topic.
    pub fn topic(&self) -> (r: &str)
        ensures
            r@ == self@.topic,
    {
        self.topic.as_str()
    }

    /// Cancels everything on the topic.
    pub fn cancel(&mut self)
        ensures
            final(self)@ == (PsTopicModel { cancelled: true, ..old(self)@ }),
    {
        self.cancelled = true;
    }

    /// Whether the topic itself was cancelled.
    pub fn is_cancelled(&self) -> (r: bool)
        ensures
            r == self@.cancelled,
    {
        self.cancelled
    }

    /// Forgets the members.
    pub fn clear_members(&mut self)
        ensures
            final(self)@ == (PsTopicModel { members: Seq::empty(), ..old(self)@ }),
    {
        self.members = Vec::new();
        assert(keys(self.members@) =~= Seq::empty());
    }
}

/// Looking at the same peers again tells of nobody.
pub proof fn lemma_no_difference(v: Seq<Seq<u8>>, others: Seq<Seq<u8>>)
    requires
        forall|i: int| 0 <= i < v.len() ==> others.contains(#[trigger] v[i]),
    ensures
        missing(v, others) == Seq::<Seq<u8>>::empty(),
    decreases v.len(),
{
    if v.len() > 0 {
        let front = v.drop_last();
        assert forall|i: int| 0 <= i < front.len() implies others.contains(#[trigger] front[i]) by {
            assert(front[i] == v[i]);
        }
        lemma_no_difference(front, others);
        assert(others.contains(v[v.len() - 1]));
    } else {
        assert(v =~= Seq::empty());
    }
}

/// Exactly the peers that are new are told to join.
pub proof fn lemma_missing(v: Seq<Seq<u8>>, others: Seq<Seq<u8>>, key: Seq<u8>)
    ensures
        missing(v, others).contains(key) <==> v.contains(key) && !others.contains(key),
    decreases v.len(),
{
    if v.len() > 0 {
        let front = v.drop_last();
        lemma_missing(front, others, key);
        assert(v =~= front.push(v.last()));
        let before = missing(front, others);
        assert(front.push(v.last()).contains(key) <==> front.contains(key) || v.last() == key) by {
            lemma_push_contains(front, v.last(), key);
        }
        assert(before.push(v.last()).contains(key) <==> before.contains(key) || v.last()
            == key) by {
            lemma_push_contains(before, v.last(), key);
        }
    }
}

/// What a sequence holds once something was added at its end.
proof fn lemma_push_contains(v: Seq<Seq<u8>>, x: Seq<u8>, key: Seq<u8>)
    ensures
        v.push(x).contains(key) <==> v.contains(key) || x == key,
{
    if v.contains(key) {
        let i = choose|i: int| 0 <= i < v.len() && v[i] == key;
        assert(v.push(x)[i] == key);
    }
    if x == key {
        assert(v.push(x)[v.len() as int] == key);
    }
    if v.push(x).contains(key) {
        let i = choose|i: int| 0 <= i < v.len() + 1 && v.push(x)[i] == key;
        if i < v.len() {
            assert(v[i] == key);
        }
    }
}

/// The topics that a node watches. Cancelling it cancels all of them.
#[derive(Debug)]
pub struct CoreApiPubSub {
    topics: TextMap<PsTopic>,
    cancelled: bool,
}

/// Whether a topic is active: neither it nor all topics were cancelled.
pub open spec fn is_active(all_cancelled: bool) -> spec_fn(PsTopic) -> bool {
    |t: PsTopic| !(t@.cancelled || all_cancelled)
}

impl CoreApiPubSub {
    /// The topics by name, in order of names.
    pub closed spec fn entries(self) -> Seq<(Seq<char>, PsTopic)> {
        self.topics@
    }

    /// Whether all topics were cancelled.
    pub closed spec fn all_cancelled(self) -> bool {
        self.cancelled
    }

    /// A node that watches no topic.
    pub fn new() -> (r: CoreApiPubSub)
        ensures
            r.entries() == Seq::<(Seq<char>, PsTopic)>::empty(),
            !r.all_cancelled(),
    {
        CoreApiPubSub { topics: TextMap::new(), cancelled: false }
    }

    /// Whether a topic is watched already; if not it has to be subscribed to.
    pub fn is_subscribed(&self, topic: &str) -> (r: bool)
        ensures
            r == lookup(self.entries(), topic@) is Some,
    {
        self.topics.contains_key(topic)
    }

    /// Watches a topic that was subscribed to; one that is watched stays as it is.
    pub fn topic_subscribe(&mut self, topic: &str)
        ensures
            final(self).all_cancelled() == old(self).all_cancelled(),
            if lookup(old(self).entries(), topic@) is Some {
                final(self).entries() == old(self).entries()
            } else {
                exists|t: PsTopic|
                    t@ == (PsTopicModel {
                        topic: topic@,
                        members: Seq::empty(),
                        cancelled: false,
                    }) && final(self).entries() == #[trigger] with_entry(
                        old(self).entries(),
                        topic@,
                        t,
                    )
            },
    {
        if !self.topics.contains_key(topic) {
            self.topics.insert(text::owned(topic), PsTopic::new(topic));
        }
    }

    /// A topic that is watched.
    pub fn topic(&self, topic_name: &str) -> (r: Option<&PsTopic>)
        ensures
            match lookup(self.entries(), topic_name@) {
                Some(topic) => r == Some(&topic),
                None => r is None,
            },
    {
        self.topics.get(topic_name)
    }

    /// A topic that is watched, to be looked at again or cancelled.
    pub fn topic_mut(&mut self, topic_name: &str) -> (r: Option<&mut PsTopic>)
        ensures
            final(self).all_cancelled() == old(self).all_cancelled(),
            match r {
                Some(topic) => lookup(old(self).entries(), topic_name@) == Some(*topic) && (
                final(self).entries() == replaced(old(self).entries(), topic_name@, *final(topic))),
                None => lookup(old(self).entries(), topic_name@) is None && final(self).entries()
                    == old(self).entries(),
            },
    {
        match self.topics.position(topic_name) {
            Some(i) => {
                let ghost entries = self.topics@;
                let topic: &mut PsTopic = self.topics.value_mut(i);
                proof {
                    lemma_replaced_at(entries, topic_name@, *final(topic), i as int);
                }
                Some(topic)
            },
            None => None,
        }
    }

    /// Cancels everything on all topics.
    pub fn cancel(&mut self)
        ensures
            final(self).all_cancelled(),
            final(self).entries() == old(self).entries(),
    {
        self.cancelled = true;
    }

    /// Whether all topics were cancelled.
    pub fn is_cancelled(&self) -> (r: bool)
        ensures
            r == self.all_cancelled(),
    {
        self.cancelled
    }

    /// Watches a topic no more; tells whether it was watched.
    pub fn remove_topic(&mut self, topic_name: &str) -> (r: bool)
        ensures
            r == lookup(old(self).entries(), topic_name@) is Some,
            final(self).entries() == without_entry(old(self).entries(), topic_name@),
            final(self).all_cancelled() == old(self).all_cancelled(),
    {
        self.topics.remove(topic_name).is_some()
    }

    /// Which topics are active, in order.
    fn active_flags(&self) -> (r: Vec<bool>)
        ensures
            r@.len() == self.entries().len(),
            forall|i: int|
                0 <= i < r@.len() ==> #[trigger] r@[i] == is_active(self.all_cancelled())(
                    self.entries()[i].1,
                ),
    {
        let mut flags: Vec<bool> = Vec::new();
        let mut i: usize = 0;
        while i < self.topics.len()
            invariant
                i <= self.topics@.len(),
                self.topics@ == self.entries(),
                flags@.len() == i,
                forall|j: int|
                    0 <= j < i ==> #[trigger] flags@[j] == is_active(self.all_cancelled())(
                        self.entries()[j].1,
                    ),
            decreases self.topics@.len() - i,
        {
            let topic: &PsTopic = self.topics.value_at(i);
            flags.push(!(topic.is_cancelled() || self.cancelled));
            i += 1;
        }
        flags
    }

    /// Watches cancelled topics no more; tells how many there were.
    pub fn cleanup_cancelled_topics(&mut self) -> (r: usize)
        ensures
            final(self).entries() == kept_where(
                old(self).entries(),
                is_active(old(self).all_cancelled()),
            ),
            final(self).all_cancelled() == old(self).all_cancelled(),
            r == old(self).entries().len() - final(self).entries().len(),
    {
        let flags: Vec<bool> = self.active_flags();
        let before: usize = self.topics.len();
        proof {
            lemma_flagged(self.entries(), flags@, is_active(self.all_cancelled()));
            lemma_kept_len(self.entries(), is_active(self.all_cancelled()));
        }
        self.topics.retain(&flags);
        before - self.topics.len()
    }

    /// How many topics are watched, and how many of them are active.
    pub fn topic_stats(&self) -> (r: (usize, usize))
        ensures
            r.0 == self.entries().len(),
            r.1 == kept_where(self.entries(), is_active(self.all_cancelled())).len(),
    {
        let flags: Vec<bool> = self.active_flags();
        let ghost entries = self.entries();
        let ghost keep = is_active(self.all_cancelled());
        let mut active: usize = 0;
        let mut i: usize = 0;
        assert(entries.take(0) =~= Seq::empty());
        while i < flags.len()
            invariant
                i <= flags@.len(),
                flags@.len() == entries.len(),
                active <= i,
                forall|j: int|
                    0 <= j < flags@.len() ==> #[trigger] flags@[j] == keep(entries[j].1),
                active == kept_where(entries.take(i as int), keep).len(),
            decreases flags@.len() - i,
        {
            assert(entries.take(i + 1).drop_last() =~= entries.take(i as int));
            if flags[i] {
                active += 1;
            }
            i += 1;
        }
        assert(entries.take(i as int) =~= entries);
        (self.topics.len(), active)
    }
}

} // verus!
