//! Who gets which ticket, and how one is searched for.
use crate::bytes::{bytes_lt, utf8};
use crate::entries::{
    keys_ordered, lemma_lookup_with_entry, lemma_lookup_without_entry, lookup,
};
use crate::hexadecimal::hex_text;
use crate::p2p::network::backend::ticket_exchange::{
    authorized_mode, AccessRoles, GrantedMode, SearchStep, TicketProtocolHandler, TicketProvider,
    TicketSearch,
};
use crate::p2p::node::NodeId;
use vstd::prelude::*;

verus! {

/// Whether a role was given to everybody or to a peer.
pub open spec fn has_role(acl: AccessRoles, role: Seq<char>, peer: Seq<u8>) -> bool {
    exists|i: int|
        0 <= i < acl.keys(role).len() && ((#[trigger] acl.keys(role)[i]) == "*"@ || acl.keys(
            role,
        )[i] == hex_text(peer))
}

/// Keys grant to a peer exactly where one of them is everybody's or the peer's.
proof fn lemma_has_role(acl: AccessRoles, role: Seq<char>, peer: Seq<u8>)
    ensures
        crate::p2p::network::backend::ticket_exchange::role_grants(acl.keys(role), peer)
            <==> has_role(acl, role, peer),
{
    let listed = acl.keys(role);
    if listed.contains("*"@) {
        let i = choose|i: int| 0 <= i < listed.len() && listed[i] == "*"@;
        assert(listed[i] == "*"@);
    }
    if listed.contains(hex_text(peer)) {
        let i = choose|i: int| 0 <= i < listed.len() && listed[i] == hex_text(peer);
        assert(listed[i] == hex_text(peer));
    }
}

/// A peer may write exactly where it has the role to write, and may only read exactly where it
/// has the role to read and not to write.
pub proof fn lemma_authorized(acl: &AccessRoles, peer: &NodeId, r: Option<GrantedMode>)
    requires
        call_ensures(authorized_mode, (acl, peer), r),
    ensures
        r == Some(GrantedMode::Write) <==> has_role(*acl, "write"@, peer@),
        r == Some(GrantedMode::Read) <==> has_role(*acl, "read"@, peer@) && !has_role(
            *acl,
            "write"@,
            peer@,
        ),
{
    lemma_has_role(*acl, "write"@, peer@);
    lemma_has_role(*acl, "read"@, peer@);
}

/// A role that was given is had by those it was given to, and other roles are had as before.
pub proof fn lemma_given_role(
    acl: &mut AccessRoles,
    role: &str,
    listed: Vec<String>,
    other: Seq<char>,
)
    requires
        call_ensures(AccessRoles::set_role, (acl, role, listed), ()),
    ensures
        final(acl).keys(role@).len() == listed@.len(),
        forall|i: int|
            0 <= i < listed@.len() ==> (#[trigger] final(acl).keys(role@)[i]) == listed@[i]@,
        other != role@ ==> final(acl).keys(other) == old(acl).keys(other),
{
    lemma_lookup_with_entry(old(acl).entries(), role@, listed, role@);
    lemma_lookup_with_entry(old(acl).entries(), role@, listed, other);
}

/// Whoever asks for the ticket of a store that was made known gets the ticket to write with the
/// role to write, the ticket to read with the role to read alone, and none without a role; a
/// store that is not known gives none. Other stores answer as before.
pub proof fn lemma_ticket_is_granted(
    handler: &mut TicketProtocolHandler,
    address: &str,
    provider: TicketProvider,
    later: &TicketProtocolHandler,
    peer: &NodeId,
    answer: Vec<u8>,
    other: Seq<char>,
)
    requires
        call_ensures(TicketProtocolHandler::register, (handler, address, provider), ()),
        later.providers() == final(handler).providers(),
        call_ensures(TicketProtocolHandler::resolve, (later, address, peer), answer),
    ensures
        has_role(provider.access_controller, "write"@, peer@) ==> answer@ == seq![1u8]
            + utf8(provider.write_ticket@),
        !has_role(provider.access_controller, "write"@, peer@) && has_role(
            provider.access_controller,
            "read"@,
            peer@,
        ) ==> answer@ == seq![1u8] + utf8(provider.read_ticket@),
        !has_role(provider.access_controller, "write"@, peer@) && !has_role(
            provider.access_controller,
            "read"@,
            peer@,
        ) ==> answer@ == seq![0u8],
        other != address@ ==> lookup(final(handler).providers(), other) == lookup(
            old(handler).providers(),
            other,
        ),
{
    lemma_has_role(provider.access_controller, "write"@, peer@);
    lemma_has_role(provider.access_controller, "read"@, peer@);
    lemma_lookup_with_entry(old(handler).providers(), address@, provider, address@);
    lemma_lookup_with_entry(old(handler).providers(), address@, provider, other);
}

/// A store that was made unknown gives no ticket.
pub proof fn lemma_unknown_store(
    handler: &mut TicketProtocolHandler,
    address: &str,
    later: &TicketProtocolHandler,
    peer: &NodeId,
    answer: Vec<u8>,
)
    requires
        call_ensures(TicketProtocolHandler::unregister, (handler, address), ()),
        keys_ordered(old(handler).providers()),
        later.providers() == final(handler).providers(),
        call_ensures(TicketProtocolHandler::resolve, (later, address, peer), answer),
    ensures
        answer@ == seq![0u8],
{
    lemma_lookup_without_entry(old(handler).providers(), address@, address@);
}

/// A search asks the first peer that is known. Without peers it gives up.
pub proof fn lemma_search_begins(own: NodeId, peers: Vec<NodeId>, r: (TicketSearch, SearchStep))
    requires
        call_ensures(TicketSearch::start, (own, peers), r),
    ensures
        peers@.len() > 0 ==> r.1 == SearchStep::Ask(peers@[0]),
        peers@.len() == 0 ==> r.1 is GiveUp,
        r.0@.asked == 0,
        r.0@.attempt == 0,
        r.0@.lower_peer_exists <==> exists|i: int|
            0 <= i < peers@.len() && bytes_lt((#[trigger] peers@[i])@, own@),
{
}

/// A ticket that was granted ends a search. Without one the next peer is asked; after the last,
/// if a peer comes before this node, it is waited, ten times at most, and otherwise given up.
pub proof fn lemma_search_goes_on(
    search: &mut TicketSearch,
    ticket: Option<String>,
    r: SearchStep,
)
    requires
        call_ensures(TicketSearch::answered, (search, ticket), r),
        old(search)@.asked < old(search)@.peers.len(),
    ensures
        ticket is Some ==> r == SearchStep::Found(ticket->0),
        ticket is None && old(search)@.asked + 1 < old(search)@.peers.len() ==> r
            == SearchStep::Ask(old(search)@.peers[old(search)@.asked as int + 1]),
        ticket is None && old(search)@.asked + 1 == old(search)@.peers.len() ==> {
            &&& old(search)@.lower_peer_exists && old(search)@.attempt < 10 ==> r
                == SearchStep::Sleep(300_000_000)
            &&& !(old(search)@.lower_peer_exists && old(search)@.attempt < 10) ==> r is GiveUp
        },
        final(search)@.peers == old(search)@.peers,
        final(search)@.attempt == old(search)@.attempt,
{
}

/// After a wait the peers that are known by then are asked from the first on.
pub proof fn lemma_search_again(search: &mut TicketSearch, peers: Vec<NodeId>, r: SearchStep)
    requires
        call_ensures(TicketSearch::woke, (search, peers), r),
        old(search)@.attempt < 10,
    ensures
        peers@.len() > 0 ==> r == SearchStep::Ask(peers@[0]),
        final(search)@.peers == peers@,
        final(search)@.asked == 0,
        final(search)@.attempt == old(search)@.attempt + 1,
{
}

} // verus!
