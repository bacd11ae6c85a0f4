//! What configurations, clients and the values of a node's operations are.
use crate::bytes::utf8;
use crate::error::GuardianError;
use crate::p2p::network::backend::docs::WillowDocs;
use crate::p2p::network::client::IrohClient;
use crate::p2p::network::config::ClientConfig;
use crate::p2p::network::types::{lemma_text_is_read_back, AddResponse, PeerInfo, PubsubMessage};
use crate::p2p::node::NodeId;
use crate::text::{lemma_decimal_reads, numeral_value, texts};
use vstd::prelude::*;

verus! {

/// A configuration is accepted exactly where its port is any or none that only an administrator
/// may use, its path is not empty, and its cache has room.
pub proof fn lemma_accepted_configuration(config: &ClientConfig, r: Result<(), String>)
    requires
        call_ensures(ClientConfig::validate, (config,), r),
    ensures
        r is Ok <==> (config.port == 0 || config.port >= 1024) && (config.data_store_path is Some
            ==> config.data_store_path->0@.len() > 0) && config.storage.max_cache_size > 0,
{
    if config.data_store_path is Some && config.data_store_path->0@.len() == 0 {
        assert(config.data_store_path->0@ =~= Seq::<char>::empty());
    }
}

/// A peer that is added is known; whoever was known still is, at its place, and nobody else.
/// Nothing else changes.
pub proof fn lemma_added_peer(config: &mut ClientConfig, peer: NodeId, other: Seq<u8>)
    requires
        call_ensures(ClientConfig::add_known_peer, (config, peer), ()),
    ensures
        final(config)@.known_peers.contains(other) <==> old(config)@.known_peers.contains(other)
            || other == peer@,
        old(config)@.known_peers.is_prefix_of(final(config)@.known_peers),
        old(config)@.known_peers.contains(peer@) ==> final(config)@.known_peers
            == old(config)@.known_peers,
        final(config)@.port == old(config)@.port,
        final(config)@.data_store_path == old(config)@.data_store_path,
        final(config)@.enable_pubsub == old(config)@.enable_pubsub,
        final(config)@.network == old(config)@.network,
        final(config)@.storage == old(config)@.storage,
        final(config)@.gossip == old(config)@.gossip,
{
    let before = old(config)@.known_peers;
    let after = final(config)@.known_peers;
    if !before.contains(peer@) {
        assert(after[before.len() as int] == peer@);
        if before.contains(other) {
            let i = choose|i: int| 0 <= i < before.len() && before[i] == other;
            assert(after[i] == other);
        }
        if after.contains(other) && other != peer@ {
            let i = choose|i: int| 0 <= i < after.len() && after[i] == other;
            assert(before[i] == other);
        }
    }
}

/// A configuration with another port or another path has it, and is the same otherwise.
pub proof fn lemma_changed_configuration(
    config: ClientConfig,
    port: u16,
    ported: ClientConfig,
    path: &str,
    placed: ClientConfig,
)
    requires
        call_ensures(ClientConfig::with_port, (config, port), ported),
        call_ensures(ClientConfig::with_data_path, (config, path), placed),
    ensures
        ported@.port == port,
        ported@.data_store_path == config@.data_store_path,
        ported@.known_peers == config@.known_peers,
        ported@.enable_pubsub == config@.enable_pubsub,
        ported@.network == config@.network && ported@.storage == config@.storage && ported@.gossip
            == config@.gossip,
        placed@.data_store_path == Some(path@),
        placed@.port == config@.port,
        placed@.known_peers == config@.known_peers,
        placed@.enable_pubsub == config@.enable_pubsub,
        placed@.network == config@.network && placed@.storage == config@.storage && placed@.gossip
            == config@.gossip,
{
}

/// A configuration without a network discovers nobody and has no topics; one for tests keeps
/// nothing on disk.
pub proof fn lemma_quiet_configurations(
    offline: ClientConfig,
    testing: ClientConfig,
    discovers: bool,
    persists: bool,
)
    requires
        call_ensures(ClientConfig::offline, (), offline),
        call_ensures(ClientConfig::testing, (), testing),
        call_ensures(ClientConfig::has_discovery_enabled, (&offline,), discovers),
        call_ensures(ClientConfig::uses_persistent_storage, (&testing,), persists),
    ensures
        !discovers,
        !offline.enable_pubsub,
        !persists,
{
}

/// A node is set up exactly where its configuration is accepted and has a path. Its contents are
/// then there, and its documents are not.
pub proof fn lemma_set_up_node(
    config: ClientConfig,
    node: NodeId,
    accepted: Result<(), String>,
    r: Result<IrohClient, GuardianError>,
)
    requires
        call_ensures(ClientConfig::validate, (&config,), accepted),
        call_ensures(IrohClient::new, (config, node), r),
    ensures
        r is Ok <==> accepted is Ok && config.data_store_path is Some,
        r is Ok ==> r->Ok_0.settings()@ == config@ && r->Ok_0.own() == node@ && r->Ok_0.contents()
            is Some && r->Ok_0.documents() is None,
{
}

/// Documents that a node takes up are there, and its contents stay.
pub proof fn lemma_taken_up(
    client: &mut IrohClient,
    docs: WillowDocs,
    then: &IrohClient,
    r: Option<&WillowDocs>,
    has: bool,
)
    requires
        call_ensures(IrohClient::init_docs, (client, docs), ()),
        *then == *final(client),
        call_ensures(IrohClient::docs_client, (then,), r),
        call_ensures(IrohClient::has_docs_client, (then,), has),
    ensures
        r is Some,
        *r->0 == docs,
        has,
        final(client).contents() == old(client).contents(),
        final(client).own() == old(client).own(),
{
}

/// Two nodes name the channel between them alike.
pub proof fn lemma_common_channel(
    one: &IrohClient,
    other: &IrohClient,
    first: &NodeId,
    second: &NodeId,
    a: String,
    b: String,
)
    requires
        one.own() == first@,
        other.own() == second@,
        call_ensures(IrohClient::get_channel_id, (one, second), a),
        call_ensures(IrohClient::get_channel_id, (other, first), b),
    ensures
        a@ == b@,
{
    crate::p2p::messaging::one_on_one_channel::lemma_channel_id_symmetric(*first, *second);
}

/// The answer to adding content gives back its hash and its size.
pub proof fn lemma_size_of_answer(
    hash: String,
    size: usize,
    made: AddResponse,
    r: Result<usize, GuardianError>,
)
    requires
        call_ensures(AddResponse::new, (hash, size), made),
        call_ensures(AddResponse::size_bytes, (&made,), r),
    ensures
        made.hash == hash,
        r is Ok,
        r->Ok_0 == size,
{
    lemma_decimal_reads(size as nat);
}

/// A size is read exactly where it is a numeral that fits.
pub proof fn lemma_read_size(answer: &AddResponse, r: Result<usize, GuardianError>)
    requires
        call_ensures(AddResponse::size_bytes, (answer,), r),
    ensures
        r is Ok ==> numeral_value(answer.size@) == Some(r->Ok_0 as nat),
        r is Err ==> numeral_value(answer.size@) is None || numeral_value(answer.size@)->0
            > usize::MAX,
{
}

/// A message has its sender, its topic and its data, which is read as the text it was made of.
pub proof fn lemma_sent_message(
    from: NodeId,
    topic: String,
    data: Vec<u8>,
    timestamp: u64,
    made: PubsubMessage,
    asked: &str,
    is_from: bool,
    size: usize,
    text: Seq<char>,
    r: Result<String, GuardianError>,
)
    requires
        call_ensures(PubsubMessage::sent_at, (from, topic, data, timestamp), made),
        call_ensures(PubsubMessage::is_from_topic, (&made, asked), is_from),
        call_ensures(PubsubMessage::data_size, (&made,), size),
        call_ensures(PubsubMessage::data_as_string, (&made,), r),
    ensures
        made.from == from,
        made.timestamp == timestamp,
        is_from <==> asked@ == topic@,
        size == data@.len(),
        data@ == utf8(text) ==> r is Ok && r->Ok_0@ == text,
{
    lemma_text_is_read_back(text);
}

/// An address that is added is there once more only if it was not there; whatever was there
/// stays at its place. The same holds of a protocol.
pub proof fn lemma_added_texts(
    peer: &mut PeerInfo,
    address: String,
    later: &mut PeerInfo,
    protocol: String,
)
    requires
        call_ensures(PeerInfo::add_address, (peer, address), ()),
        call_ensures(PeerInfo::add_protocol, (later, protocol), ()),
    ensures
        texts(final(peer).addresses@).contains(address@),
        texts(old(peer).addresses@).is_prefix_of(texts(final(peer).addresses@)),
        final(peer).addresses@.len() <= old(peer).addresses@.len() + 1,
        texts(old(peer).addresses@).contains(address@) ==> final(peer).addresses@.len()
            == old(peer).addresses@.len(),
        final(peer).protocols == old(peer).protocols,
        texts(final(later).protocols@).contains(protocol@),
        texts(old(later).protocols@).is_prefix_of(texts(final(later).protocols@)),
        final(later).protocols@.len() <= old(later).protocols@.len() + 1,
        texts(old(later).protocols@).contains(protocol@) ==> final(later).protocols@.len()
            == old(later).protocols@.len(),
        final(later).addresses == old(later).addresses,
{
    let a = texts(old(peer).addresses@);
    let b = texts(final(peer).addresses@);
    assert(a.len() == old(peer).addresses@.len() && b.len() == final(peer).addresses@.len());
    if !a.contains(address@) {
        assert(b[a.len() as int] == address@);
    }
    let c = texts(old(later).protocols@);
    let d = texts(final(later).protocols@);
    assert(c.len() == old(later).protocols@.len() && d.len() == final(later).protocols@.len());
    if !c.contains(protocol@) {
        assert(d[c.len() as int] == protocol@);
    }
}

} // verus!
