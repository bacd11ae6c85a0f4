//! Tickets for stores: who gets which.
//!
//! A peer asks for the ticket of a store by the store's address. The connection
//! tells its public key. It gets the write ticket if it may write, else the read
//! ticket if it may read, else a refusal.
use crate::bytes;
use crate::bytes::{bytes_lt, utf8, utf8_lossy};
use crate::entries::{lookup, with_entry, without_entry, TextMap};
use crate::hexadecimal::hex_text;
use crate::p2p::node::NodeId;
use crate::text;
use crate::text::texts;
use vstd::prelude::*;

verus! {

/// The protocol of ticket exchange.
pub const TICKET_ALPN: &'static str = "/guardian-db/ticket/1";

/// The first byte of an answer that grants a ticket.
pub const RESP_GRANTED: u8 = 1;

/// The only byte of an answer that refuses.
pub const RESP_DENIED: u8 = 0;

/// The size of the largest request, in bytes.
pub const MAX_REQUEST_SIZE: usize = 4_096;

/// The size of the largest answer, in bytes.
pub const MAX_RESPONSE_SIZE: usize = 65_536;

/// What a peer may do.
#[derive(Clone, Copy, PartialEq, Eq, Structural, Debug)]
pub enum GrantedMode {
    /// Read only: its ticket does not carry the secret that writing takes.
    Read,
    /// Read and write.
    Write,
}

/// Who has which role; a role that nobody was given is not there.
#[derive(Debug)]
pub struct AccessRoles {
    roles: TextMap<Vec<String>>,
}

/// The keys in a role.
pub open spec fn role_keys(roles: Seq<(Seq<char>, Vec<String>)>, role: Seq<char>) -> Seq<
    Seq<char>,
> {
    match lookup(roles, role) {
        Some(list) => texts(list@),
        None => Seq::empty(),
    }
}

/// Whether keys include everybody, or a peer.
pub open spec fn role_grants(listed: Seq<Seq<char>>, peer: Seq<u8>) -> bool {
    listed.contains("*"@) || listed.contains(hex_text(peer))
}

/// What a peer may do: writing comes before reading.
pub open spec fn mode_of(write: Seq<Seq<char>>, read: Seq<Seq<char>>, peer: Seq<u8>) -> Option<
    GrantedMode,
> {
    if role_grants(write, peer) {
        Some(GrantedMode::Write)
    } else if role_grants(read, peer) {
        Some(GrantedMode::Read)
    } else {
        None
    }
}

impl AccessRoles {
    /// The keys by role.
    pub closed spec fn entries(self) -> Seq<(Seq<char>, Vec<String>)> {
        self.roles@
    }

    /// The keys in a role.
    pub open spec fn keys(self, role: Seq<char>) -> Seq<Seq<char>> {
        role_keys(self.entries(), role)
    }

    /// Nobody has a role.
    pub fn new() -> (r: AccessRoles)
        ensures
            r.entries() == Seq::<(Seq<char>, Vec<String>)>::empty(),
    {
        AccessRoles { roles: TextMap::new() }
    }

    /// Gives a role to keys.
    pub fn set_role(&mut self, role: &str, listed: Vec<String>)
        ensures
            final(self).entries() == with_entry(old(self).entries(), role@, listed),
    {
        self.roles.insert(text::owned(role), listed);
    }

    /// Whether a role includes everybody, or a peer.
    fn grants(&self, role: &str, peer: &NodeId) -> (r: bool)
        ensures
            r == role_grants(self.keys(role@), peer@),
    {
        match self.roles.get(role) {
            Some(listed) => {
                let id: String = peer.render();
                text::contains_text(listed, "*") || text::contains_text(listed, id.as_str())
            },
            None => {
                assert(!self.keys(role@).contains("*"@));
                false
            },
        }
    }
}

/// What a peer may do according to roles.
pub fn authorized_mode(acl: &AccessRoles, requester: &NodeId) -> (r: Option<GrantedMode>)
    ensures
        r == mode_of(acl.keys("write"@), acl.keys("read"@), requester@),
{
    if acl.grants("write", requester) {
        return Some(GrantedMode::Write);
    }
    if acl.grants("read", requester) {
        return Some(GrantedMode::Read);
    }
    None
}

/// The tickets of a store, and who may have which.
#[derive(Debug)]
pub struct TicketProvider {
    /// The ticket that does not carry the secret.
    pub read_ticket: String,
    /// The ticket that does.
    pub write_ticket: String,
    /// Who may have which.
    pub access_controller: AccessRoles,
}

/// What a peer may do with the store of a provider.
pub open spec fn provider_mode(provider: TicketProvider, peer: Seq<u8>) -> Option<GrantedMode> {
    mode_of(
        provider.access_controller.keys("write"@),
        provider.access_controller.keys("read"@),
        peer,
    )
}

/// The answer to a request for the ticket of a store.
pub open spec fn answer(provider: Option<TicketProvider>, peer: Seq<u8>) -> Seq<u8> {
    match provider {
        None => seq![RESP_DENIED],
        Some(p) => match provider_mode(p, peer) {
            Some(GrantedMode::Write) => seq![RESP_GRANTED] + utf8(p.write_ticket@),
            Some(GrantedMode::Read) => seq![RESP_GRANTED] + utf8(p.read_ticket@),
            None => seq![RESP_DENIED],
        },
    }
}

/// Answers requests for tickets of the stores that it knows.
#[derive(Debug)]
pub struct TicketProtocolHandler {
    registry: TextMap<TicketProvider>,
}

impl TicketProtocolHandler {
    /// The stores by address.
    pub closed spec fn providers(self) -> Seq<(Seq<char>, TicketProvider)> {
        self.registry@
    }

    /// Knows no store.
    pub fn new() -> (r: TicketProtocolHandler)
        ensures
            r.providers() == Seq::<(Seq<char>, TicketProvider)>::empty(),
    {
        TicketProtocolHandler { registry: TextMap::new() }
    }

    /// Makes a store known.
    pub fn register(&mut self, address: &str, provider: TicketProvider)
        ensures
            final(self).providers() == with_entry(old(self).providers(), address@, provider),
    {
        self.registry.insert(text::owned(address), provider);
    }

    /// Makes a store unknown.
    pub fn unregister(&mut self, address: &str)
        ensures
            final(self).providers() == without_entry(old(self).providers(), address@),
    {
        let _ = self.registry.remove(address);
    }

    /// The answer to a peer's request for the ticket of a store.
    pub fn resolve(&self, address: &str, requester: &NodeId) -> (r: Vec<u8>)
        ensures
            r@ == answer(lookup(self.providers(), address@), requester@),
    {
        let mut out: Vec<u8> = Vec::new();
        match self.registry.get(address) {
            None => {
                out.push(RESP_DENIED);
                assert(out@ =~= seq![RESP_DENIED]);
            },
            Some(provider) => match authorized_mode(&provider.access_controller, requester) {
                Some(mode) => {
                    let ticket: &String = match mode {
                        GrantedMode::Write => &provider.write_ticket,
                        GrantedMode::Read => &provider.read_ticket,
                    };
                    out.push(RESP_GRANTED);
                    out.extend_from_slice(ticket.as_str().as_bytes());
                    assert(out@ =~= seq![RESP_GRANTED] + utf8(ticket@));
                },
                None => {
                    out.push(RESP_DENIED);
                    assert(out@ =~= seq![RESP_DENIED]);
                },
            },
        }
        out
    }

    /// The answer to a request as it came in: an address in UTF-8.
    pub fn accept(&self, request: &[u8], requester: &NodeId) -> (r: Vec<u8>)
        ensures
            r@ == answer(lookup(self.providers(), utf8_lossy(request@)), requester@),
    {
        let address: String = bytes::from_utf8_lossy(request);
        self.resolve(address.as_str(), requester)
    }
}

/// What was read of the rest of an answer, if it grants a ticket.
pub open spec fn granted(response: Seq<u8>) -> bool {
    response.len() > 1 && response[0] == RESP_GRANTED
}

/// The ticket that an answer grants; none if it refuses, or is empty.
pub fn read_response(response: &[u8]) -> (r: Option<String>)
    ensures
        match r {
            Some(ticket) => granted(response@) && ticket@ == utf8_lossy(response@.skip(1)),
            None => !granted(response@),
        },
        forall|ticket: Seq<char>|
            ticket.len() > 0 && response@ == seq![RESP_GRANTED] + #[trigger] utf8(ticket)
                ==> r is Some && r->0@ == ticket,
{
    if response.len() > 1 && response[0] == RESP_GRANTED {
        let rest: Vec<u8> = bytes::slice(response, 1, response.len());
        assert(rest@ =~= response@.skip(1));
        let ticket: String = bytes::from_utf8_lossy(rest.as_slice());
        proof {
            assert forall|t: Seq<char>|
                t.len() > 0 && response@ == seq![RESP_GRANTED] + #[trigger] utf8(t) implies ticket@
                == t by {
                assert(rest@ =~= utf8(t));
                vstd::utf8::encode_utf8_valid_utf8(t);
                bytes::lemma_utf8_lossy_exact(t, ticket@);
            }
        }
        Some(ticket)
    } else {
        proof {
            assert forall|t: Seq<char>| t.len() > 0 implies response@ != seq![RESP_GRANTED]
                + #[trigger] utf8(t) by {
                lemma_utf8_nonempty(t);
                assert((seq![RESP_GRANTED] + utf8(t))[0] == RESP_GRANTED);
            }
        }
        None
    }
}

/// The UTF-8 form of a text that is not empty is not empty.
proof fn lemma_utf8_nonempty(t: Seq<char>)
    requires
        t.len() > 0,
    ensures
        utf8(t).len() > 0,
{
    vstd::utf8::encode_utf8_decode_utf8(t);
    if utf8(t).len() == 0 {
        assert(utf8(t) =~= Seq::<u8>::empty());
        assert(vstd::utf8::decode_utf8(Seq::<u8>::empty()) =~= Seq::<char>::empty());
    }
}

/// A peer that may not write never gets the write ticket: if it may read, it gets the
/// read ticket, and otherwise a refusal and nothing else.
pub proof fn lemma_no_write_ticket_without_role(provider: TicketProvider, peer: NodeId)
    requires
        !role_grants(provider.access_controller.keys("write"@), peer@),
    ensures
        answer(Some(provider), peer@) == if role_grants(
            provider.access_controller.keys("read"@),
            peer@,
        ) {
            seq![RESP_GRANTED] + utf8(provider.read_ticket@)
        } else {
            seq![RESP_DENIED]
        },
{
}

/// A refusal carries nothing: it is the same for every store, known or not.
pub proof fn lemma_refusals_are_alike(provider: TicketProvider, peer: NodeId)
    requires
        provider_mode(provider, peer@) is None,
    ensures
        answer(Some(provider), peer@) == answer(None, peer@),
        !granted(answer(None, peer@)),
{
}

/// A role that lists everybody grants to every peer, and one that lists a key grants to
/// exactly the peer with that key.
pub proof fn lemma_role_grants(peer: NodeId, other: NodeId)
    ensures
        role_grants(seq!["*"@], peer@),
        role_grants(seq![hex_text(peer@)], other@) <==> other@ == peer@,
{
    let everybody = seq!["*"@];
    assert(everybody[0] == "*"@);
    let one = seq![hex_text(peer@)];
    assert(one[0] == hex_text(peer@));
    crate::hexadecimal::lemma_hex_round_trip(peer@);
    crate::hexadecimal::lemma_hex_round_trip(other@);
    reveal_strlit("*");
    assert(hex_text(peer@).len() == 64);
    assert("*"@.len() == 1);
}

/// How often the known peers are asked again.
pub const MAX_RETRIES: u32 = 10;

/// How long to wait before that, in nanoseconds.
pub const RETRY_DELAY: u64 = 300_000_000;

/// What is to be done in the search for a ticket.
#[derive(Debug)]
pub enum SearchStep {
    /// Ask a peer.
    Ask(NodeId),
    /// Wait so many nanoseconds, then ask the peers that are known by then.
    Sleep(u64),
    /// Here it is.
    Found(String),
    /// Nobody has it: the store is to be created.
    GiveUp,
}

/// The search for the ticket of a store that somebody may have created before.
///
/// The known peers are asked one after another. If none of them grants a ticket and one of
/// them comes before this node, it is expected to create the store, and they are asked
/// again some times.
#[derive(Debug)]
pub struct TicketSearch {
    own: NodeId,
    peers: Vec<NodeId>,
    asked: usize,
    attempt: u32,
    lower_peer_exists: bool,
}

/// The model of a search.
#[verifier::ext_equal]
pub struct SearchModel {
    pub own: Seq<u8>,
    pub peers: Seq<NodeId>,
    pub asked: nat,
    pub attempt: u32,
    pub lower_peer_exists: bool,
}

impl View for TicketSearch {
    type V = SearchModel;

    closed spec fn view(&self) -> SearchModel {
        SearchModel {
            own: self.own@,
            peers: self.peers@,
            asked: self.asked as nat,
            attempt: self.attempt,
            lower_peer_exists: self.lower_peer_exists,
        }
    }
}

/// Whether a peer comes before a node.
pub open spec fn some_below(peers: Seq<NodeId>, own: Seq<u8>) -> bool {
    exists|i: int| 0 <= i < peers.len() && bytes_lt((#[trigger] peers[i])@, own)
}

/// What is to be done next in a round: ask the next peer, or wait for the next round, or
/// give up if there is none.
pub open spec fn next_step(m: SearchModel) -> SearchStep {
    if m.asked < m.peers.len() {
        SearchStep::Ask(m.peers[m.asked as int])
    } else if m.lower_peer_exists && m.attempt < MAX_RETRIES {
        SearchStep::Sleep(RETRY_DELAY)
    } else {
        SearchStep::GiveUp
    }
}

impl TicketSearch {
    /// What is to be done next in a round.
    fn next(&self) -> (r: SearchStep)
        ensures
            r == next_step(self@),
    {
        if self.asked < self.peers.len() {
            SearchStep::Ask(self.peers[self.asked])
        } else if self.lower_peer_exists && self.attempt < MAX_RETRIES {
            SearchStep::Sleep(RETRY_DELAY)
        } else {
            SearchStep::GiveUp
        }
    }

    /// Begins a search among the peers that are known.
    pub fn start(own: NodeId, peers: Vec<NodeId>) -> (r: (TicketSearch, SearchStep))
        ensures
            r.0@ == (SearchModel {
                own: own@,
                peers: peers@,
                asked: 0,
                attempt: 0,
                lower_peer_exists: some_below(peers@, own@),
            }),
            r.1 == next_step(r.0@),
    {
        let mut lower: bool = false;
        let mut i: usize = 0;
        while i < peers.len()
            invariant
                i <= peers@.len(),
                lower == (exists|j: int|
                    0 <= j < i && bytes_lt((#[trigger] peers@[j])@, own@)),
            decreases peers@.len() - i,
        {
            if peers[i].is_below(&own) {
                assert(bytes_lt(peers@[i as int]@, own@));
                lower = true;
            }
            i += 1;
        }
        let search = TicketSearch {
            own,
            peers,
            asked: 0,
            attempt: 0,
            lower_peer_exists: lower,
        };
        let step: SearchStep = search.next();
        (search, step)
    }

    /// Takes in the answer of the peer that was asked; one that failed has no ticket.
    pub fn answered(&mut self, ticket: Option<String>) -> (r: SearchStep)
        requires
            old(self)@.asked < old(self)@.peers.len(),
        ensures
            match ticket {
                Some(t) => r == SearchStep::Found(t) && final(self)@ == old(self)@,
                None => final(self)@ == (SearchModel {
                    asked: old(self)@.asked + 1,
                    ..old(self)@
                }) && r == next_step(final(self)@),
            },
    {
        match ticket {
            Some(t) => SearchStep::Found(t),
            None => {
                if self.asked < self.peers.len() {
                    self.asked = self.asked + 1;
                }
                self.next()
            },
        }
    }

    /// Takes in the peers that are known after a wait.
    pub fn woke(&mut self, peers: Vec<NodeId>) -> (r: SearchStep)
        requires
            old(self)@.attempt < MAX_RETRIES,
        ensures
            final(self)@ == (SearchModel {
                peers: peers@,
                asked: 0,
                attempt: (old(self)@.attempt + 1) as u32,
                ..old(self)@
            }),
            r == next_step(final(self)@),
    {
        self.peers = peers;
        self.asked = 0;
        self.attempt = self.attempt + 1;
        self.next()
    }
}

/// A node that comes before all peers that it knows does not wait for them: once each of
/// them was asked, it creates the store. Any other node asks again a bounded number of times.
pub proof fn lemma_lowest_node_creates(m: SearchModel)
    requires
        m.asked >= m.peers.len(),
    ensures
        !m.lower_peer_exists ==> next_step(m) is GiveUp,
        m.attempt >= MAX_RETRIES ==> next_step(m) is GiveUp,
        next_step(m) is Sleep ==> m.attempt < MAX_RETRIES,
{
}

/// Of two nodes that know each other, one expects the other to create the store, and not
/// both: the lower one creates it.
pub proof fn lemma_one_creates(a: NodeId, b: NodeId)
    requires
        a@ != b@,
    ensures
        some_below(seq![a], b@) <==> !some_below(seq![b], a@),
{
    let only_a = seq![a];
    let only_b = seq![b];
    bytes::lemma_bytes_lt_total(a@, b@);
    bytes::lemma_bytes_lt_total(b@, a@);
    assert(only_a[0] == a && only_b[0] == b);
}

} // verus!
