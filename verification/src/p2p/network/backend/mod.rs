//! What a node keeps and decides behind its interface.
//!
//! The store, the endpoint and the clock are outside; the state kept here decides
//! what they are asked to do and takes in what they report. Times are nanoseconds on
//! a clock that never goes back.
use crate::bytes;
use crate::bytes::utf8_lossy;
use crate::crypto;
use crate::entries::{lookup, with_entry, without_entry, TextMap};
use crate::error::{outcome, Failure, GuardianError};
use crate::hash::{refuses_hash, ContentHash};
use crate::hexadecimal::{hex_decoded, hex_text, short_text};
use crate::idmap::{id_views, IdMap};
use crate::p2p::network::backend::key_synchronizer::stored_keypair;
use crate::p2p::network::config::ClientConfig;
use crate::p2p::network::types::{AddResponse, NodeInfo, PeerInfo, RepoStats, VersionInfo};
use crate::p2p::node;
use crate::p2p::node::{added, keys, NodeId};
use crate::text;
use crate::text::{behind, decimal_text, texts};
use vstd::prelude::*;

pub mod batch_laws;
pub mod batch_processor;
pub mod blobs;
pub mod cache_laws;
pub mod connection_pool;
pub mod docs;
pub mod gossip;
pub mod key_synchronizer;
pub mod networking_metrics;
pub mod node_laws;
pub mod optimized_cache;
pub mod pool_laws;
pub mod store_laws;
pub mod sync_laws;
pub mod ticket_exchange;
pub mod ticket_laws;

verus! {

/// How long a connection counts as up since it was last used, in nanoseconds.
pub const CONNECTION_FRESH: u64 = 60_000_000_000;

/// How long a discovered peer counts as up since it was last seen, in nanoseconds.
pub const DISCOVERY_FRESH: u64 = 30_000_000_000;

/// The file that the node's secret key is kept in.
pub const SECRET_KEY_FILE: &'static str = "node_secret.key";

/// How content is pinned.
#[derive(Clone, Copy, PartialEq, Eq, Structural, Debug)]
pub enum PinType {
    Direct,
    Recursive,
    Indirect,
}

/// Content that is pinned.
#[derive(Debug)]
pub struct PinInfo {
    pub hash: String,
    pub pin_type: PinType,
}

/// What a collection of garbage did.
#[derive(Clone, Copy, PartialEq, Eq, Structural, Debug)]
pub struct GcStats {
    pub blocks_removed: u64,
    pub bytes_freed: u64,
    pub duration_ms: u64,
}

/// One check of the node's health.
#[derive(Debug)]
pub struct HealthCheck {
    pub name: String,
    pub passed: bool,
    pub message: String,
}

/// The node's health.
#[derive(Debug)]
pub struct HealthStatus {
    pub healthy: bool,
    pub message: String,
    pub response_time_ms: u64,
    pub checks: Vec<HealthCheck>,
}

/// What a tag refers to.
#[derive(Clone, Copy, PartialEq, Eq, Structural, Debug)]
pub enum BlobFormat {
    Raw,
    HashSeq,
}

/// A tag of the store.
#[derive(Debug)]
pub struct TagInfo {
    pub name: Vec<u8>,
    pub format: BlobFormat,
}

/// A connection of the node.
#[derive(Debug)]
pub struct ConnectionInfo {
    pub node_id: NodeId,
    pub address: String,
    pub connected_at: u64,
    pub last_used: u64,
    /// The average latency, by the bits of its floating-point number.
    pub latency_bits: u64,
    pub operations_count: u64,
}

/// A peer that was discovered.
#[derive(Debug)]
pub struct DiscoveredPeerInfo {
    pub node_id: NodeId,
    pub addresses: Vec<String>,
    pub last_seen: u64,
    pub protocols: Vec<String>,
}

/// What is kept of a connection, by the peer.
#[derive(Debug)]
struct Connection {
    address: String,
    connected_at: u64,
    last_used: u64,
    latency_bits: u64,
    operations_count: u64,
}

/// What is kept of a discovered peer.
#[derive(Debug)]
struct Discovered {
    addresses: Vec<String>,
    last_seen: u64,
    protocols: Vec<String>,
}

/// The model of a connection.
#[verifier::ext_equal]
pub struct ConnectionModel {
    pub address: Seq<char>,
    pub connected_at: u64,
    pub last_used: u64,
    pub latency_bits: u64,
    pub operations_count: u64,
}

/// The model of a discovered peer.
#[verifier::ext_equal]
pub struct DiscoveredModel {
    pub addresses: Seq<Seq<char>>,
    pub last_seen: u64,
    pub protocols: Seq<Seq<char>>,
}

/// The model of what is kept of a connection.
spec fn connection_model(c: Connection) -> ConnectionModel {
    ConnectionModel {
        address: c.address@,
        connected_at: c.connected_at,
        last_used: c.last_used,
        latency_bits: c.latency_bits,
        operations_count: c.operations_count,
    }
}

/// The model of what is kept of a discovered peer.
spec fn discovered_model(d: Discovered) -> DiscoveredModel {
    DiscoveredModel {
        addresses: texts(d.addresses@),
        last_seen: d.last_seen,
        protocols: texts(d.protocols@),
    }
}

/// The model of the connections.
spec fn pool_model(pool: Map<Seq<u8>, Connection>) -> Map<Seq<u8>, ConnectionModel> {
    pool.map_values(|c: Connection| connection_model(c))
}

/// The model of the discovered peers.
spec fn discovery_model(found: Map<Seq<u8>, Discovered>) -> Map<Seq<u8>, DiscoveredModel> {
    found.map_values(|d: Discovered| discovered_model(d))
}

/// A node.
#[derive(Debug)]
pub struct IrohBackend {
    node_id: NodeId,
    pinned_cache: TextMap<PinType>,
    is_online: bool,
    last_error: Option<String>,
    last_activity: u64,
    connected_peers: u32,
    discovery_cache: IdMap<Discovered>,
    connection_pool: IdMap<Connection>,
    known_peers: Vec<NodeId>,
    total_operations: u64,
    error_count: u64,
}

/// The model of a node.
#[verifier::ext_equal]
pub struct BackendModel {
    pub node: Seq<u8>,
    pub pinned: Seq<(Seq<char>, PinType)>,
    pub is_online: bool,
    pub last_error: Option<Seq<char>>,
    pub last_activity: u64,
    pub connected_peers: u32,
    pub discovered: Map<Seq<u8>, DiscoveredModel>,
    pub pool: Map<Seq<u8>, ConnectionModel>,
    pub known: Seq<Seq<u8>>,
    pub total_operations: u64,
    pub error_count: u64,
}

/// The model of an optional text.
pub open spec fn text_model(t: Option<String>) -> Option<Seq<char>> {
    match t {
        Some(s) => Some(s@),
        None => None,
    }
}

impl View for IrohBackend {
    type V = BackendModel;

    closed spec fn view(&self) -> BackendModel {
        BackendModel {
            node: self.node_id@,
            pinned: self.pinned_cache@,
            is_online: self.is_online,
            last_error: text_model(self.last_error),
            last_activity: self.last_activity,
            connected_peers: self.connected_peers,
            discovered: discovery_model(self.discovery_cache@),
            pool: pool_model(self.connection_pool@),
            known: keys(self.known_peers@),
            total_operations: self.total_operations,
            error_count: self.error_count,
        }
    }
}

/// How long ago something was.
pub open spec fn elapsed(now: u64, then: u64) -> int {
    if now >= then {
        now - then
    } else {
        0
    }
}

/// How long ago something was.
fn since(now: u64, then: u64) -> (r: u64)
    ensures
        r == elapsed(now, then),
{
    if now >= then {
        now - then
    } else {
        0
    }
}

/// Where the address of a peer is taken from.
#[derive(Clone, Copy, PartialEq, Eq, Structural, Debug)]
pub enum AddressSource {
    /// What the endpoint knows of it.
    Remote,
    /// What discovery found.
    Discovery,
}

/// What came of resolving a peer by discovery.
#[derive(Debug)]
pub enum Resolution {
    /// Discovery does not resolve.
    Unsupported,
    /// It failed for a reason.
    Failed(String),
    /// It found nothing.
    Empty,
    /// It found the peer.
    Found,
}

/// What comes of looking for the address of a peer: what the endpoint knows of it comes
/// first, then discovery if there is one.
pub open spec fn address_source(
    peer: Seq<u8>,
    has_discovery: bool,
    is_known: bool,
    resolution: Resolution,
) -> Result<AddressSource, Failure> {
    if is_known {
        Ok(AddressSource::Remote)
    } else if !has_discovery {
        Err(
            Failure::Other(
                "Discovery não disponível e node "@ + short_text(peer)
                    + " não encontrado em remote_info"@,
            ),
        )
    } else {
        match resolution {
            Resolution::Unsupported => Err(
                Failure::Other("Discovery não suporta resolve para node "@ + short_text(peer)),
            ),
            Resolution::Failed(detail) => Err(
                Failure::Other(
                    "Erro ao resolver node "@ + short_text(peer) + " via discovery: "@ + detail@,
                ),
            ),
            Resolution::Empty => Err(
                Failure::Other(
                    "Node "@ + short_text(peer)
                        + " não encontrado via discovery (stream vazio)"@,
                ),
            ),
            Resolution::Found => Ok(AddressSource::Discovery),
        }
    }
}

/// Looks for the address of a peer. `resolution` is what came of resolving it by discovery,
/// which matters only where there is one and the endpoint does not know the peer.
pub fn choose_address(
    peer: &NodeId,
    has_discovery: bool,
    is_known: bool,
    resolution: Resolution,
) -> (r: Result<AddressSource, GuardianError>)
    ensures
        outcome(r) == address_source(peer@, has_discovery, is_known, resolution),
{
    if is_known {
        return Ok(AddressSource::Remote);
    }
    let id: String = peer.fmt_short();
    if !has_discovery {
        return Err(
            GuardianError::Other(
                text::join3(
                    "Discovery não disponível e node ",
                    id.as_str(),
                    " não encontrado em remote_info",
                ),
            ),
        );
    }
    match resolution {
        Resolution::Unsupported => Err(
            GuardianError::Other(
                text::join2("Discovery não suporta resolve para node ", id.as_str()),
            ),
        ),
        Resolution::Failed(detail) => {
            let mut words: String = text::join3(
                "Erro ao resolver node ",
                id.as_str(),
                " via discovery: ",
            );
            words.append(detail.as_str());
            Err(GuardianError::Other(words))
        },
        Resolution::Empty => Err(
            GuardianError::Other(
                text::join3(
                    "Node ",
                    id.as_str(),
                    " não encontrado via discovery (stream vazio)",
                ),
            ),
        ),
        Resolution::Found => Ok(AddressSource::Discovery),
    }
}

/// The addresses of a peer: those that the endpoint knows, else those that were resolved.
pub fn discover_peer_integrated(
    peer: &NodeId,
    known: Vec<String>,
    resolved: Vec<String>,
) -> (r: Result<Vec<String>, GuardianError>)
    ensures
        outcome(r) == if known@.len() > 0 {
            Ok::<Vec<String>, Failure>(known)
        } else if resolved@.len() > 0 {
            Ok(resolved)
        } else {
            Err(
                Failure::Other(
                    "Peer "@ + hex_text(peer@)
                        + " not found via remote_info() or address lookup"@,
                ),
            )
        },
{
    if known.len() > 0 {
        return Ok(known);
    }
    if resolved.len() > 0 {
        return Ok(resolved);
    }
    let id: String = peer.render();
    Err(
        GuardianError::Other(
            text::join3("Peer ", id.as_str(), " not found via remote_info() or address lookup"),
        ),
    )
}

/// The directory that data is kept in; a node cannot do without one.
pub fn data_directory(config: &ClientConfig) -> (r: Result<String, GuardianError>)
    ensures
        match config@.data_store_path {
            Some(path) => r is Ok && r->Ok_0@ == path,
            None => outcome(r) == Err::<String, Failure>(
                Failure::Other("Data directory not configured for the Iroh backend"@),
            ),
        },
{
    match &config.data_store_path {
        Some(path) => Ok(path.clone()),
        None => Err(
            GuardianError::Other(
                text::owned("Data directory not configured for the Iroh backend"),
            ),
        ),
    }
}

/// The secret key of the node: the one that was read from its file, else a new one, which
/// is to be saved.
pub fn load_or_generate_node_secret_key(read: Option<Vec<u8>>) -> (r: ([u8; 32], bool))
    ensures
        match read {
            Some(data) => data@.len() == 32 ==> r.0@ == data@,
            None => true,
        },
        r.1 == !(read is Some && read->0@.len() == 32),
{
    match stored_keypair(read) {
        Some(secret) => (secret, false),
        None => (crypto::generate_secret_key(), true),
    }
}

/// The error of the store or the endpoint, for a reason.
pub fn map_iroh_error(detail: &str) -> (r: GuardianError)
    ensures
        r@ == Failure::Other("Iroh error: "@ + detail@),
{
    GuardianError::Other(text::join2("Iroh error: ", detail))
}

/// The tag that pins content.
pub open spec fn pin_tag(hash: Seq<char>) -> Seq<char> {
    "pin-"@ + hash
}

/// The pins that tags of the store are, in order: a tag pins what stands behind its prefix.
pub open spec fn tagged_pins(tags: Seq<TagInfo>) -> Seq<(Seq<char>, PinType)>
    decreases tags.len(),
{
    if tags.len() == 0 {
        Seq::empty()
    } else {
        let before = tagged_pins(tags.drop_last());
        match behind(utf8_lossy(tags.last().name@), "pin-"@) {
            Some(hash) => before.push(
                (
                    hash,
                    match tags.last().format {
                        BlobFormat::Raw => PinType::Recursive,
                        BlobFormat::HashSeq => PinType::Direct,
                    },
                ),
            ),
            None => before,
        }
    }
}

/// The hashes of pins.
pub open spec fn pin_hashes(pins: Seq<(Seq<char>, PinType)>) -> Seq<Seq<char>> {
    pins.map_values(|p: (Seq<char>, PinType)| p.0)
}

/// Pins with those added that are remembered, each unless it is there.
pub open spec fn with_remembered(
    pins: Seq<(Seq<char>, PinType)>,
    remembered: Seq<(Seq<char>, PinType)>,
) -> Seq<(Seq<char>, PinType)>
    decreases remembered.len(),
{
    if remembered.len() == 0 {
        pins
    } else {
        let before = with_remembered(pins, remembered.drop_last());
        if pin_hashes(before).contains(remembered.last().0) {
            before
        } else {
            before.push(remembered.last())
        }
    }
}

/// The models of pins.
pub open spec fn pin_models(pins: Seq<PinInfo>) -> Seq<(Seq<char>, PinType)> {
    pins.map_values(|p: PinInfo| (p.hash@, p.pin_type))
}

/// Whether content is among pins.
fn is_listed(pins: &Vec<PinInfo>, hash: &str) -> (r: bool)
    ensures
        r == pin_hashes(pin_models(pins@)).contains(hash@),
{
    let ghost listed = pin_hashes(pin_models(pins@));
    let mut i: usize = 0;
    while i < pins.len()
        invariant
            i <= pins@.len(),
            listed == pin_hashes(pin_models(pins@)),
            forall|j: int| 0 <= j < i ==> #[trigger] listed[j] != hash@,
        decreases pins@.len() - i,
    {
        assert(listed[i as int] == pins@[i as int].hash@);
        if text::same_text(pins[i].hash.as_str(), hash) {
            return true;
        }
        i += 1;
    }
    false
}

/// Content that was pinned is listed, whether the store still has its tag or only the node
/// remembers it.
pub proof fn lemma_remembered_is_listed(
    pins: Seq<(Seq<char>, PinType)>,
    remembered: Seq<(Seq<char>, PinType)>,
    i: int,
)
    requires
        0 <= i < remembered.len(),
    ensures
        pin_hashes(with_remembered(pins, remembered)).contains(remembered[i].0),
    decreases remembered.len(),
{
    let before = with_remembered(pins, remembered.drop_last());
    let after = with_remembered(pins, remembered);
    if i == remembered.len() - 1 {
        if !pin_hashes(before).contains(remembered.last().0) {
            assert(pin_hashes(after)[before.len() as int] == remembered.last().0);
        }
    } else {
        lemma_remembered_is_listed(pins, remembered.drop_last(), i);
        let k = pin_hashes(before).index_of(remembered[i].0);
        assert(pin_hashes(after)[k] == pin_hashes(before)[k]);
    }
}

/// The tag that pins content is read as a pin of it.
pub proof fn lemma_pin_tag_is_read(hash: Seq<char>)
    ensures
        behind(pin_tag(hash), "pin-"@) == Some(hash),
{
    let n = "pin-"@.len() as int;
    assert(pin_tag(hash).take(n) =~= "pin-"@);
    assert(pin_tag(hash).skip(n) =~= hash);
}

impl IrohBackend {
    /// A node that is not online yet.
    pub fn new(node_id: NodeId, now: u64) -> (r: IrohBackend)
        ensures
            r@ == (BackendModel {
                node: node_id@,
                pinned: Seq::empty(),
                is_online: false,
                last_error: None,
                last_activity: now,
                connected_peers: 0,
                discovered: Map::empty(),
                pool: Map::empty(),
                known: Seq::empty(),
                total_operations: 0,
                error_count: 0,
            }),
    {
        let r = IrohBackend {
            node_id,
            pinned_cache: TextMap::new(),
            is_online: false,
            last_error: None,
            last_activity: now,
            connected_peers: 0,
            discovery_cache: IdMap::new(),
            connection_pool: IdMap::new(),
            known_peers: Vec::new(),
            total_operations: 0,
            error_count: 0,
        };
        assert(keys(r.known_peers@) =~= Seq::empty());
        assert(pool_model(r.connection_pool@) =~= Map::empty());
        assert(discovery_model(r.discovery_cache@) =~= Map::empty());
        r
    }

    /// Takes in that the node was started.
    pub fn started(&mut self, now: u64)
        ensures
            final(self)@ == (BackendModel {
                is_online: true,
                last_activity: now,
                last_error: None,
                ..old(self)@
            }),
    {
        self.is_online = true;
        self.last_activity = now;
        self.last_error = None;
    }

    /// Takes in that the node was shut down.
    pub fn shutdown(&mut self, now: u64)
        ensures
            final(self)@ == (BackendModel { is_online: false, last_activity: now, ..old(self)@ }),
    {
        self.is_online = false;
        self.last_activity = now;
    }

    /// Whether the node is online.
    pub fn is_online(&self) -> (r: bool)
        ensures
            r == self@.is_online,
    {
        self.is_online
    }

    /// How many operations ended, and how many of them with an error.
    pub fn operation_counts(&self) -> (r: (u64, u64))
        ensures
            r == (self@.total_operations, self@.error_count),
    {
        (self.total_operations, self.error_count)
    }

    /// Takes in that an operation ended, well or with an error.
    pub fn operation_finished(&mut self, result: Result<(), String>, now: u64)
        requires
            old(self)@.total_operations < u64::MAX,
            old(self)@.error_count < u64::MAX,
        ensures
            final(self)@ == match result {
                Ok(_) => BackendModel {
                    total_operations: (old(self)@.total_operations + 1) as u64,
                    last_activity: now,
                    last_error: None,
                    ..old(self)@
                },
                Err(detail) => BackendModel {
                    total_operations: (old(self)@.total_operations + 1) as u64,
                    error_count: (old(self)@.error_count + 1) as u64,
                    last_activity: now,
                    last_error: Some(detail@),
                    ..old(self)@
                },
            },
    {
        self.total_operations = self.total_operations + 1;
        self.last_activity = now;
        match result {
            Ok(_) => {
                self.last_error = None;
            },
            Err(detail) => {
                self.error_count = self.error_count + 1;
                self.last_error = Some(detail);
            },
        }
    }

    /// Makes a peer known.
    pub fn note_known_peer(&mut self, peer: &NodeId)
        ensures
            final(self)@ == (BackendModel {
                known: added(old(self)@.known, peer@),
                ..old(self)@
            }),
    {
        node::add(&mut self.known_peers, peer);
    }

    /// The peers that are known.
    pub fn known_peers(&self) -> (r: Vec<NodeId>)
        ensures
            keys(r@) == self@.known,
    {
        node::copy(&self.known_peers)
    }

    /// The tag that is to be set so that content is pinned. `is_stored` tells whether the
    /// store has the content.
    pub fn pin_add(&self, hash_str: &str, is_stored: bool) -> (r: Result<
        (ContentHash, String),
        GuardianError,
    >)
        ensures
            match r {
                Ok((hash, tag)) => hex_decoded(hash_str@) == Some(hash@) && is_stored && tag@
                    == pin_tag(hash_str@),
                Err(e) => refuses_hash(hash_str@, e@) || (!is_stored && hex_decoded(
                    hash_str@,
                ) is Some && hex_decoded(hash_str@)->0.len() == 32 && e@ == Failure::Other(
                    "Content "@ + hash_str@ + " not found in the store"@,
                )),
            },
    {
        match ContentHash::parse_hash(hash_str) {
            Err(e) => Err(e),
            Ok(hash) => if !is_stored {
                Err(
                    GuardianError::Other(
                        text::join3("Content ", hash_str, " not found in the store"),
                    ),
                )
            } else {
                Ok((hash, text::join2("pin-", hash_str)))
            },
        }
    }

    /// Remembers that content was pinned.
    pub fn pinned(&mut self, hash_str: &str)
        ensures
            final(self)@ == (BackendModel {
                pinned: with_entry(old(self)@.pinned, hash_str@, PinType::Direct),
                ..old(self)@
            }),
    {
        self.pinned_cache.insert(text::owned(hash_str), PinType::Direct);
    }

    /// Forgets that content was pinned; gives the tag that is to be deleted.
    pub fn pin_rm(&mut self, hash_str: &str) -> (r: Result<String, GuardianError>)
        ensures
            match lookup(old(self)@.pinned, hash_str@) {
                Some(_) => r is Ok && r->Ok_0@ == pin_tag(hash_str@),
                None => outcome(r) == Err::<String, Failure>(
                    Failure::Other("Object "@ + hash_str@ + " was not pinned"@),
                ),
            },
            final(self)@ == (BackendModel {
                pinned: without_entry(old(self)@.pinned, hash_str@),
                ..old(self)@
            }),
    {
        match self.pinned_cache.remove(hash_str) {
            Some(_) => Ok(text::join2("pin-", hash_str)),
            None => Err(
                GuardianError::Other(text::join3("Object ", hash_str, " was not pinned")),
            ),
        }
    }

    /// What is pinned, by the tags of the store and by what is remembered.
    pub fn pin_ls(&self, tags: &Vec<TagInfo>) -> (r: Vec<PinInfo>)
        ensures
            pin_models(r@) == with_remembered(tagged_pins(tags@), self@.pinned),
    {
        let mut pins: Vec<PinInfo> = Vec::new();
        let mut i: usize = 0;
        assert(tags@.take(0) =~= Seq::empty());
        assert(pin_models(pins@) =~= Seq::empty());
        while i < tags.len()
            invariant
                i <= tags@.len(),
                pin_models(pins@) == tagged_pins(tags@.take(i as int)),
            decreases tags@.len() - i,
        {
            let ghost taken = tags@.take(i + 1);
            let ghost had = pin_models(pins@);
            assert(taken.drop_last() =~= tags@.take(i as int));
            assert(taken.last() == tags@[i as int]);
            let name: String = bytes::from_utf8_lossy(tags[i].name.as_slice());
            match text::strip_prefix(name.as_str(), "pin-") {
                Some(hash) => {
                    let pin_type: PinType = match tags[i].format {
                        BlobFormat::Raw => PinType::Recursive,
                        BlobFormat::HashSeq => PinType::Direct,
                    };
                    pins.push(PinInfo { hash, pin_type });
                    assert(pin_models(pins@) =~= had.push((hash@, pin_type)));
                },
                None => {},
            }
            i += 1;
        }
        assert(tags@.take(i as int) =~= tags@);
        let ghost tagged = tagged_pins(tags@);
        let mut k: usize = 0;
        assert(self.pinned_cache@.take(0) =~= Seq::empty());
        while k < self.pinned_cache.len()
            invariant
                k <= self.pinned_cache@.len(),
                pin_models(pins@) == with_remembered(tagged, self.pinned_cache@.take(k as int)),
            decreases self.pinned_cache@.len() - k,
        {
            let ghost taken = self.pinned_cache@.take(k + 1);
            let ghost had = pin_models(pins@);
            assert(taken.drop_last() =~= self.pinned_cache@.take(k as int));
            assert(taken.last() == self.pinned_cache@[k as int]);
            let hash: &String = self.pinned_cache.key_at(k);
            if !is_listed(&pins, hash.as_str()) {
                let pin_type: PinType = *self.pinned_cache.value_at(k);
                pins.push(PinInfo { hash: hash.clone(), pin_type });
                assert(pin_models(pins@) =~= had.push((hash@, pin_type)));
            }
            k += 1;
        }
        assert(self.pinned_cache@.take(k as int) =~= self.pinned_cache@);
        pins
    }
}

/// Where content comes from.
#[derive(Debug)]
pub enum CatStep {
    /// The cache had it.
    Cached(Vec<u8>),
    /// The store is to be asked for it.
    Fetch(ContentHash),
}

/// The answer to adding content.
pub fn added_content(hash: &ContentHash, size: usize) -> (r: AddResponse)
    ensures
        r.hash@ == hex_text(hash@),
        r.name@ == "unnamed"@,
        r.size@ == decimal_text(size as nat),
{
    AddResponse {
        hash: hash.hash_to_string(),
        name: text::owned("unnamed"),
        size: text::decimal(size as u64),
    }
}

/// Where content is to be had: from the cache, else from the store, by its hash.
pub fn cat(hash_str: &str, cached: Option<Vec<u8>>) -> (r: Result<CatStep, GuardianError>)
    ensures
        match cached {
            Some(data) => r == Ok::<CatStep, GuardianError>(CatStep::Cached(data)),
            None => match r {
                Ok(CatStep::Cached(_)) => false,
                Ok(CatStep::Fetch(hash)) => hex_decoded(hash_str@) == Some(hash@),
                Err(e) => refuses_hash(hash_str@, e@),
            },
        },
        r is Ok <==> (cached is Some || (hex_decoded(hash_str@) is Some && hex_decoded(
            hash_str@,
        )->0.len() == 32)),
{
    match cached {
        Some(data) => Ok(CatStep::Cached(data)),
        None => match ContentHash::parse_hash(hash_str) {
            Ok(hash) => Ok(CatStep::Fetch(hash)),
            Err(e) => Err(e),
        },
    }
}

/// The error of a connection that could not be made, for a reason.
pub fn connection_refused(peer: &NodeId, detail: &str) -> (r: GuardianError)
    ensures
        r@ == Failure::Other(
            "Falha ao estabelecer conexão QUIC com "@ + short_text(peer@) + ": "@ + detail@,
        ),
{
    let id: String = peer.fmt_short();
    let mut words: String = text::join3(
        "Falha ao estabelecer conexão QUIC com ",
        id.as_str(),
        ": ",
    );
    words.append(detail);
    GuardianError::Other(words)
}

/// What a node tells of itself, at its addresses.
pub fn node_info(node: &NodeId, addresses: Vec<String>) -> (r: NodeInfo)
    ensures
        r.id == *node,
        r.public_key@ == "iroh-node-"@ + hex_text(node@),
        r.addresses == addresses,
        r.agent_version@ == "guardian-db-iroh/0.1.0"@,
        r.protocol_version@ == "iroh-protocols/0.92.0"@,
{
    let id: String = node.render();
    NodeInfo {
        id: *node,
        public_key: text::join2("iroh-node-", id.as_str()),
        addresses,
        agent_version: text::owned("guardian-db-iroh/0.1.0"),
        protocol_version: text::owned("iroh-protocols/0.92.0"),
    }
}

/// The sum of sizes.
pub open spec fn total(sizes: Seq<u64>) -> nat
    decreases sizes.len(),
{
    if sizes.len() == 0 {
        0
    } else {
        total(sizes.drop_last()) + sizes.last() as nat
    }
}

/// The sum of the first sizes is no more than the sum of all.
proof fn lemma_total_grows(sizes: Seq<u64>, n: int)
    requires
        0 <= n <= sizes.len(),
    ensures
        total(sizes.take(n)) <= total(sizes),
    decreases sizes.len(),
{
    if n == sizes.len() {
        assert(sizes.take(n) =~= sizes);
    } else {
        lemma_total_grows(sizes.drop_last(), n);
        assert(sizes.drop_last().take(n) =~= sizes.take(n));
    }
}

/// What a store holds, by the sizes of its files.
pub fn repo_stat(path: String, sizes: &Vec<u64>) -> (r: RepoStats)
    requires
        total(sizes@) <= u64::MAX,
    ensures
        r.num_objects == sizes@.len(),
        r.repo_size == total(sizes@),
        r.repo_path == path,
        r.version@ == "15"@,
{
    let mut repo_size: u64 = 0;
    let mut i: usize = 0;
    assert(sizes@.take(0) =~= Seq::empty());
    while i < sizes.len()
        invariant
            i <= sizes@.len(),
            repo_size == total(sizes@.take(i as int)),
            total(sizes@) <= u64::MAX,
        decreases sizes@.len() - i,
    {
        proof {
            let taken = sizes@.take(i + 1);
            assert(taken.drop_last() =~= sizes@.take(i as int));
            assert(taken.last() == sizes@[i as int]);
            lemma_total_grows(sizes@, i + 1);
        }
        repo_size = repo_size + sizes[i];
        i += 1;
    }
    assert(sizes@.take(i as int) =~= sizes@);
    RepoStats {
        num_objects: sizes.len() as u64,
        repo_size,
        repo_path: path,
        version: text::owned("15"),
    }
}

/// The version of the node, on an operating system.
pub fn version(system: String) -> (r: VersionInfo)
    ensures
        r.version@ == "iroh-0.92.0"@,
        r.commit@ == "embedded"@,
        r.repo@ == "15"@,
        r.system == system,
{
    VersionInfo {
        version: text::owned("iroh-0.92.0"),
        commit: text::owned("embedded"),
        repo: text::owned("15"),
        system,
    }
}

/// How many snapshots of the performance are kept.
pub const MAX_SNAPSHOTS: usize = 100;

/// Adds a snapshot to those that are kept; the oldest leaves when there are too many.
pub fn record_snapshot<T>(history: &mut Vec<T>, snapshot: T)
    ensures
        final(history)@ == if old(history)@.len() < MAX_SNAPSHOTS {
            old(history)@.push(snapshot)
        } else {
            old(history)@.push(snapshot).skip(1)
        },
{
    history.push(snapshot);
    if history.len() > MAX_SNAPSHOTS {
        let _ = history.remove(0);
        assert(history@ =~= old(history)@.push(snapshot).skip(1));
    }
}

/// No more snapshots are kept than the limit allows, once there were no more.
pub proof fn lemma_snapshots_are_bounded<T>(history: Seq<T>, snapshot: T)
    requires
        history.len() <= MAX_SNAPSHOTS,
    ensures
        (if history.len() < MAX_SNAPSHOTS {
            history.push(snapshot)
        } else {
            history.push(snapshot).skip(1)
        }).len() <= MAX_SNAPSHOTS,
{
}

/// The model of a health check.
#[verifier::ext_equal]
pub struct CheckModel {
    pub name: Seq<char>,
    pub passed: bool,
    pub message: Seq<char>,
}

/// The models of health checks.
pub open spec fn check_models(checks: Seq<HealthCheck>) -> Seq<CheckModel> {
    checks.map_values(
        |c: HealthCheck| CheckModel { name: c.name@, passed: c.passed, message: c.message@ },
    )
}

/// The checks of a node: whether it is online, whether its directory can be read and whether
/// its metrics can.
pub open spec fn checks_of(m: BackendModel, data_ok: bool, metrics_ok: bool) -> Seq<CheckModel> {
    seq![
        CheckModel {
            name: "node_status"@,
            passed: m.is_online,
            message: if m.is_online {
                "Iroh node online"@
            } else {
                "Iroh node offline: "@ + match m.last_error {
                    Some(detail) => detail,
                    None => "unknown reason"@,
                }
            },
        },
        CheckModel {
            name: "data_directory"@,
            passed: data_ok,
            message: if data_ok {
                "Data directory accessible"@
            } else {
                "Data directory inaccessible"@
            },
        },
        CheckModel {
            name: "metrics"@,
            passed: metrics_ok,
            message: if metrics_ok {
                "Metrics available"@
            } else {
                "Error accessing metrics"@
            },
        },
    ]
}

/// The model of a peer.
#[verifier::ext_equal]
pub struct PeerModel {
    pub id: Seq<u8>,
    pub addresses: Seq<Seq<char>>,
    pub protocols: Seq<Seq<char>>,
    pub connected: bool,
}

/// The model of what is known of a peer.
pub open spec fn peer_model(p: PeerInfo) -> PeerModel {
    PeerModel {
        id: p.id@,
        addresses: texts(p.addresses@),
        protocols: texts(p.protocols@),
        connected: p.connected,
    }
}

/// A peer that there is a connection with.
pub open spec fn pool_peer(id: Seq<u8>, c: ConnectionModel, now: u64) -> PeerModel {
    PeerModel {
        id,
        addresses: seq![c.address],
        protocols: seq!["iroh/blobs/0.92.0"@, "iroh/gossip/0.92.0"@, "iroh/docs/0.92.0"@],
        connected: elapsed(now, c.last_used) < CONNECTION_FRESH,
    }
}

/// A peer that was discovered.
pub open spec fn discovered_peer(id: Seq<u8>, d: DiscoveredModel, now: u64) -> PeerModel {
    PeerModel {
        id,
        addresses: d.addresses,
        protocols: d.protocols,
        connected: elapsed(now, d.last_seen) < DISCOVERY_FRESH,
    }
}

/// A peer, by the connection with it if there is one.
pub open spec fn peer_of(m: BackendModel, id: Seq<u8>, now: u64) -> PeerModel {
    if m.pool.dom().contains(id) {
        pool_peer(id, m.pool[id], now)
    } else {
        discovered_peer(id, m.discovered[id], now)
    }
}

/// The identifiers of peers.
pub open spec fn peer_ids(peers: Seq<PeerInfo>) -> Seq<Seq<u8>> {
    peers.map_values(|p: PeerInfo| p.id@)
}

/// Whether peers are all that the node knows of, each once, those with a connection first.
pub open spec fn lists_peers(peers: Seq<PeerInfo>, m: BackendModel, now: u64) -> bool {
    &&& peer_ids(peers).no_duplicates()
    &&& forall|k: Seq<u8>|
        #[trigger] peer_ids(peers).contains(k) <==> (m.pool.dom().contains(k)
            || m.discovered.dom().contains(k))
    &&& forall|i: int|
        0 <= i < peers.len() ==> peer_model(#[trigger] peers[i]) == peer_of(m, peers[i].id@, now)
    &&& forall|i: int, j: int|
        0 <= i < j < peers.len() && m.pool.dom().contains((#[trigger] peers[j]).id@)
            ==> m.pool.dom().contains((#[trigger] peers[i]).id@)
}

/// Whether connections are those of a pool, each once.
pub open spec fn lists_connections(
    connections: Seq<ConnectionInfo>,
    pool: Map<Seq<u8>, ConnectionModel>,
) -> bool {
    let ids = connections.map_values(|c: ConnectionInfo| c.node_id@);
    &&& ids.no_duplicates()
    &&& forall|k: Seq<u8>| #[trigger] ids.contains(k) <==> pool.dom().contains(k)
    &&& forall|i: int|
        0 <= i < connections.len() ==> info_model(#[trigger] connections[i])
            == pool[connections[i].node_id@]
}

/// The model of a connection that was handed out.
pub open spec fn info_model(c: ConnectionInfo) -> ConnectionModel {
    ConnectionModel {
        address: c.address@,
        connected_at: c.connected_at,
        last_used: c.last_used,
        latency_bits: c.latency_bits,
        operations_count: c.operations_count,
    }
}

/// The connections that were used recently enough.
pub open spec fn fresh_connections(
    pool: Map<Seq<u8>, ConnectionModel>,
    timeout: u64,
    now: u64,
) -> Map<Seq<u8>, ConnectionModel> {
    Map::new(
        |k: Seq<u8>| pool.dom().contains(k) && elapsed(now, pool[k].last_used) <= timeout,
        |k: Seq<u8>| pool[k],
    )
}

/// The failure of asking for a connection that there is not.
pub open spec fn no_connection(node: Seq<u8>) -> Failure {
    Failure::Other("Connection not found in the pool: "@ + short_text(node))
}

/// The error of asking for a connection that there is not.
fn missing_connection(node: &NodeId) -> (r: GuardianError)
    ensures
        r@ == no_connection(node@),
{
    let id: String = node.fmt_short();
    GuardianError::Other(text::join2("Connection not found in the pool: ", id.as_str()))
}

/// Copies texts.
fn copy_texts(v: &Vec<String>) -> (r: Vec<String>)
    ensures
        texts(r@) == texts(v@),
{
    let mut out: Vec<String> = Vec::new();
    let mut i: usize = 0;
    while i < v.len()
        invariant
            i <= v@.len(),
            out@.len() == i,
            forall|j: int| 0 <= j < i ==> (#[trigger] out@[j])@ == v@[j]@,
        decreases v@.len() - i,
    {
        out.push(v[i].clone());
        i += 1;
    }
    assert(texts(out@) =~= texts(v@));
    out
}

/// Hands out a connection.
fn hand_out(node: &NodeId, c: &Connection) -> (r: ConnectionInfo)
    ensures
        r.node_id == *node,
        info_model(r) == connection_model(*c),
{
    ConnectionInfo {
        node_id: *node,
        address: c.address.clone(),
        connected_at: c.connected_at,
        last_used: c.last_used,
        latency_bits: c.latency_bits,
        operations_count: c.operations_count,
    }
}

impl IrohBackend {
    /// Takes in that discovery found the addresses of a peer.
    pub fn resolved(&mut self, peer: &NodeId, addresses: Vec<String>, now: u64)
        ensures
            final(self)@ == (BackendModel {
                discovered: old(self)@.discovered.insert(
                    peer@,
                    DiscoveredModel {
                        addresses: texts(addresses@),
                        last_seen: now,
                        protocols: seq!["iroh"@],
                    },
                ),
                ..old(self)@
            }),
    {
        let mut protocols: Vec<String> = Vec::new();
        protocols.push(text::owned("iroh"));
        assert(texts(protocols@) =~= seq!["iroh"@]);
        self.discovery_cache.insert(
            peer.bytes,
            Discovered { addresses, last_seen: now, protocols },
        );
        assert(self@.discovered =~= old(self)@.discovered.insert(
            peer@,
            DiscoveredModel {
                addresses: texts(addresses@),
                last_seen: now,
                protocols: seq!["iroh"@],
            },
        ));
    }

    /// Takes in that a connection with a peer was made, at its first address if it has any.
    pub fn connected(&mut self, peer: &NodeId, address: Option<String>, now: u64)
        ensures
            final(self)@ == (BackendModel {
                pool: old(self)@.pool.insert(
                    peer@,
                    ConnectionModel {
                        address: match address {
                            Some(a) => a@,
                            None => "unknown"@,
                        },
                        connected_at: now,
                        last_used: now,
                        latency_bits: 0,
                        operations_count: 0,
                    },
                ),
                connected_peers: if old(self)@.connected_peers < u32::MAX {
                    (old(self)@.connected_peers + 1) as u32
                } else {
                    u32::MAX
                },
                last_activity: now,
                ..old(self)@
            }),
    {
        let address: String = match address {
            Some(a) => a,
            None => text::owned("unknown"),
        };
        let c = Connection {
            address,
            connected_at: now,
            last_used: now,
            latency_bits: 0,
            operations_count: 0,
        };
        let ghost kept = connection_model(c);
        self.connection_pool.insert(peer.bytes, c);
        if self.connected_peers < u32::MAX {
            self.connected_peers = self.connected_peers + 1;
        }
        self.last_activity = now;
        assert(self@.pool =~= old(self)@.pool.insert(peer@, kept));
    }

    /// The peers that the node knows of.
    pub fn peers(&self, now: u64) -> (r: Vec<PeerInfo>)
        ensures
            lists_peers(r@, self@, now),
    {
        let mut peers: Vec<PeerInfo> = Vec::new();
        let in_pool: usize = self.connection_pool.len();
        let ghost ids = self.connection_pool.ids();
        let ghost m = self@;
        let mut i: usize = 0;
        while i < in_pool
            invariant
                i <= in_pool,
                in_pool == ids.len(),
                ids == self.connection_pool.ids(),
                ids.no_duplicates(),
                m == self@,
                peers@.len() == i,
                forall|j: int|
                    0 <= j < i ==> (#[trigger] peers@[j]).id@ == ids[j] && m.pool.dom().contains(
                        ids[j],
                    ) && peer_model(peers@[j]) == peer_of(m, ids[j], now),
            decreases in_pool - i,
        {
            let node: NodeId = NodeId { bytes: self.connection_pool.id_at(i) };
            let c: &Connection = self.connection_pool.value_at(i);
            let mut addresses: Vec<String> = Vec::new();
            addresses.push(c.address.clone());
            let mut protocols: Vec<String> = Vec::new();
            protocols.push(text::owned("iroh/blobs/0.92.0"));
            protocols.push(text::owned("iroh/gossip/0.92.0"));
            protocols.push(text::owned("iroh/docs/0.92.0"));
            assert(texts(addresses@) =~= seq![c.address@]);
            assert(texts(protocols@) =~= seq![
                "iroh/blobs/0.92.0"@,
                "iroh/gossip/0.92.0"@,
                "iroh/docs/0.92.0"@,
            ]);
            let connected: bool = since(now, c.last_used) < CONNECTION_FRESH;
            assert(m.pool.dom().contains(node@));
            assert(m.pool[node@] == connection_model(*c));
            peers.push(PeerInfo { id: node, addresses, protocols, connected });
            i += 1;
        }
        let found: usize = self.discovery_cache.len();
        let ghost others = self.discovery_cache.ids();
        proof {
            assert(peer_ids(peers@) =~= ids);
            assert forall|k: Seq<u8>| m.pool.dom().contains(k) implies peer_ids(peers@).contains(
                k,
            ) by {
                assert(self.connection_pool@.dom().contains(k));
            }
        }
        let mut i: usize = 0;
        while i < found
            invariant
                i <= found,
                found == others.len(),
                others == self.discovery_cache.ids(),
                others.no_duplicates(),
                m == self@,
                peers@.len() >= in_pool,
                peer_ids(peers@).no_duplicates(),
                forall|k: Seq<u8>| m.pool.dom().contains(k) ==> peer_ids(peers@).contains(k),
                forall|j: int|
                    0 <= j < peers@.len() ==> peer_model(#[trigger] peers@[j]) == peer_of(
                        m,
                        peers@[j].id@,
                        now,
                    ) && (m.pool.dom().contains(peers@[j].id@) <==> j < in_pool) && (
                    m.pool.dom().contains(peers@[j].id@) || m.discovered.dom().contains(
                        peers@[j].id@,
                    )),
                forall|j: int|
                    0 <= j < i ==> peer_ids(peers@).contains(#[trigger] others[j]),
                forall|j: int|
                    in_pool <= j < peers@.len() ==> exists|a: int|
                        0 <= a < i && others[a] == (#[trigger] peers@[j]).id@,
            decreases found - i,
        {
            let node: NodeId = NodeId { bytes: self.discovery_cache.id_at(i) };
            let d: &Discovered = self.discovery_cache.value_at(i);
            let ghost before = peers@;
            assert(m.discovered.dom().contains(node@));
            assert(m.discovered[node@] == discovered_model(*d));
            if !self.connection_pool.contains(&node.bytes) {
                assert(!m.pool.dom().contains(node@));
                let connected: bool = since(now, d.last_seen) < DISCOVERY_FRESH;
                peers.push(
                    PeerInfo {
                        id: node,
                        addresses: copy_texts(&d.addresses),
                        protocols: copy_texts(&d.protocols),
                        connected,
                    },
                );
                proof {
                    assert(peer_ids(peers@) =~= peer_ids(before).push(node@));
                    assert forall|j: int| 0 <= j < before.len() implies before[j].id@
                        != node@ by {
                        if j >= in_pool {
                            let a = choose|a: int| 0 <= a < i && others[a] == before[j].id@;
                            assert(others[a] != others[i as int]);
                        }
                    }
                    lemma_pushed_id(peer_ids(before), node@);
                    assert forall|j: int| in_pool <= j < peers@.len() implies exists|a: int|
                        0 <= a < i + 1 && others[a] == (#[trigger] peers@[j]).id@ by {
                        if j < before.len() {
                            assert(peers@[j] == before[j]);
                            let a = choose|a: int| 0 <= a < i && others[a] == before[j].id@;
                            assert(0 <= a < i + 1 && others[a] == peers@[j].id@);
                        } else {
                            assert(others[i as int] == peers@[j].id@);
                        }
                    }
                }
            } else {
                assert(m.pool.dom().contains(node@));
                assert forall|j: int| in_pool <= j < peers@.len() implies exists|a: int|
                    0 <= a < i + 1 && others[a] == (#[trigger] peers@[j]).id@ by {
                    let a = choose|a: int| 0 <= a < i && others[a] == peers@[j].id@;
                    assert(0 <= a < i + 1 && others[a] == peers@[j].id@);
                }
            }
            i += 1;
        }
        proof {
            assert forall|k: Seq<u8>| #[trigger] peer_ids(peers@).contains(k) <==> (
            m.pool.dom().contains(k) || m.discovered.dom().contains(k)) by {
                if peer_ids(peers@).contains(k) {
                    let j = peer_ids(peers@).index_of(k);
                    assert(peers@[j].id@ == k);
                }
                if m.discovered.dom().contains(k) {
                    assert(self.discovery_cache@.dom().contains(k));
                    let a = others.index_of(k);
                    assert(others[a] == k);
                }
            }
        }
        peers
    }

    /// How well the node is. `data_ok` and `metrics_ok` tell whether its directory and its
    /// metrics could be read.
    pub fn health_check(&self, data_ok: bool, metrics_ok: bool, response_time_ms: u64) -> (r:
        HealthStatus)
        ensures
            r.healthy == (self@.is_online && data_ok),
            r.message@ == if r.healthy {
                "Iroh backend operational"@
            } else {
                "Iroh backend has problems"@
            },
            r.response_time_ms == response_time_ms,
            check_models(r.checks@) == checks_of(self@, data_ok, metrics_ok),
    {
        let status: String = if self.is_online {
            text::owned("Iroh node online")
        } else {
            match &self.last_error {
                Some(detail) => text::join2("Iroh node offline: ", detail.as_str()),
                None => text::join2("Iroh node offline: ", "unknown reason"),
            }
        };
        let mut checks: Vec<HealthCheck> = Vec::new();
        checks.push(
            HealthCheck {
                name: text::owned("node_status"),
                passed: self.is_online,
                message: status,
            },
        );
        checks.push(
            HealthCheck {
                name: text::owned("data_directory"),
                passed: data_ok,
                message: if data_ok {
                    text::owned("Data directory accessible")
                } else {
                    text::owned("Data directory inaccessible")
                },
            },
        );
        checks.push(
            HealthCheck {
                name: text::owned("metrics"),
                passed: metrics_ok,
                message: if metrics_ok {
                    text::owned("Metrics available")
                } else {
                    text::owned("Error accessing metrics")
                },
            },
        );
        assert(check_models(checks@) =~= checks_of(self@, data_ok, metrics_ok));
        let healthy: bool = self.is_online && data_ok;
        HealthStatus {
            healthy,
            message: if healthy {
                text::owned("Iroh backend operational")
            } else {
                text::owned("Iroh backend has problems")
            },
            response_time_ms,
            checks,
        }
    }

    /// The memory that the node is estimated to use, where the cache holds some bytes.
    pub fn estimate_memory_usage(&self, bytes_cached: u64) -> (r: u64)
        requires
            self@.pinned.len() * 64 + bytes_cached + self@.discovered.len() * 256 <= u64::MAX,
        ensures
            r == self@.pinned.len() * 64 + bytes_cached + self@.discovered.len() * 256,
    {
        let pinned: usize = self.pinned_cache.len();
        let found: usize = self.discovery_cache.len();
        proof {
            assert(discovery_model(self.discovery_cache@).dom() =~= self.discovery_cache@.dom());
        }
        (pinned as u64) * 64 + bytes_cached + (found as u64) * 256
    }

    /// The number of connections, in words.
    pub fn get_connection_pool_status(&self) -> (r: String)
        ensures
            r@ == "Connection pool active with "@ + decimal_text(self@.pool.len()) + " peers"@,
    {
        let count: usize = self.connection_pool.len();
        proof {
            assert(pool_model(self.connection_pool@).dom() =~= self.connection_pool@.dom());
        }
        let count: String = text::decimal(count as u64);
        text::join3("Connection pool active with ", count.as_str(), " peers")
    }

    /// Uses a connection.
    pub fn get_connection_from_pool(&mut self, node: &NodeId, now: u64) -> (r: Result<
        ConnectionInfo,
        GuardianError,
    >)
        requires
            old(self)@.pool.dom().contains(node@) ==> old(self)@.pool[node@].operations_count
                < u64::MAX,
        ensures
            match r {
                Ok(c) => old(self)@.pool.dom().contains(node@) && c.node_id == *node && info_model(
                    c,
                ) == (ConnectionModel {
                    last_used: now,
                    operations_count: (old(self)@.pool[node@].operations_count + 1) as u64,
                    ..old(self)@.pool[node@]
                }) && final(self)@ == (BackendModel {
                    pool: old(self)@.pool.insert(node@, info_model(c)),
                    ..old(self)@
                }),
                Err(e) => !old(self)@.pool.dom().contains(node@) && e@ == no_connection(node@)
                    && final(self)@ == old(self)@,
            },
    {
        let ghost before = old(self)@.pool;
        match self.connection_pool.remove(&node.bytes) {
            None => {
                assert(self@.pool =~= before);
                Err(missing_connection(node))
            },
            Some(mut c) => {
                assert(before.dom().contains(node@));
                assert(before[node@] == connection_model(c));
                c.last_used = now;
                c.operations_count = c.operations_count + 1;
                let info: ConnectionInfo = hand_out(node, &c);
                self.connection_pool.insert(node.bytes, c);
                assert(self@.pool =~= before.insert(node@, info_model(info)));
                Ok(info)
            },
        }
    }

    /// Drops a connection.
    pub fn remove_connection_from_pool(&mut self, node: &NodeId) -> (r: Result<(), GuardianError>)
        ensures
            outcome(r) == if old(self)@.pool.dom().contains(node@) {
                Ok::<(), Failure>(())
            } else {
                Err(no_connection(node@))
            },
            final(self)@ == if old(self)@.pool.dom().contains(node@) {
                BackendModel {
                    pool: old(self)@.pool.remove(node@),
                    connected_peers: if old(self)@.connected_peers > 0 {
                        (old(self)@.connected_peers - 1) as u32
                    } else {
                        0
                    },
                    ..old(self)@
                }
            } else {
                old(self)@
            },
    {
        let ghost before = old(self)@.pool;
        match self.connection_pool.remove(&node.bytes) {
            None => {
                assert(self@.pool =~= before);
                Err(missing_connection(node))
            },
            Some(_) => {
                assert(before.dom().contains(node@));
                if self.connected_peers > 0 {
                    self.connected_peers = self.connected_peers - 1;
                }
                assert(self@.pool =~= before.remove(node@));
                Ok(())
            },
        }
    }

    /// Sets the latency of a connection, by the bits of its floating-point number.
    pub fn update_connection_latency(&mut self, node: &NodeId, latency_bits: u64) -> (r: Result<
        (),
        GuardianError,
    >)
        ensures
            outcome(r) == if old(self)@.pool.dom().contains(node@) {
                Ok::<(), Failure>(())
            } else {
                Err(no_connection(node@))
            },
            final(self)@ == if old(self)@.pool.dom().contains(node@) {
                BackendModel {
                    pool: old(self)@.pool.insert(
                        node@,
                        ConnectionModel { latency_bits, ..old(self)@.pool[node@] },
                    ),
                    ..old(self)@
                }
            } else {
                old(self)@
            },
    {
        let ghost before = old(self)@.pool;
        match self.connection_pool.remove(&node.bytes) {
            None => {
                assert(self@.pool =~= before);
                Err(missing_connection(node))
            },
            Some(mut c) => {
                assert(before.dom().contains(node@));
                assert(before[node@] == connection_model(c));
                c.latency_bits = latency_bits;
                self.connection_pool.insert(node.bytes, c);
                assert(self@.pool =~= before.insert(
                    node@,
                    ConnectionModel { latency_bits, ..before[node@] },
                ));
                Ok(())
            },
        }
    }

    /// The connections.
    pub fn list_active_connections(&self) -> (r: Vec<ConnectionInfo>)
        ensures
            lists_connections(r@, self@.pool),
    {
        let count: usize = self.connection_pool.len();
        let ghost ids = self.connection_pool.ids();
        let ghost pool = self@.pool;
        let mut out: Vec<ConnectionInfo> = Vec::new();
        let mut i: usize = 0;
        while i < count
            invariant
                i <= count,
                count == ids.len(),
                ids == self.connection_pool.ids(),
                pool == self@.pool,
                out@.len() == i,
                forall|j: int|
                    0 <= j < i ==> (#[trigger] out@[j]).node_id@ == ids[j] && info_model(out@[j])
                        == pool[ids[j]],
            decreases count - i,
        {
            let node: NodeId = NodeId { bytes: self.connection_pool.id_at(i) };
            let c: &Connection = self.connection_pool.value_at(i);
            assert(pool[node@] == connection_model(*c));
            out.push(hand_out(&node, c));
            i += 1;
        }
        proof {
            let listed = out@.map_values(|c: ConnectionInfo| c.node_id@);
            assert(listed =~= ids);
            assert forall|k: Seq<u8>| #[trigger] listed.contains(k) <==> pool.dom().contains(k) by {
                assert(self.connection_pool@.dom().contains(k) <==> ids.contains(k));
            }
        }
        out
    }

    /// Drops the connections that were not used for longer than a time; gives their number.
    pub fn cleanup_stale_connections(&mut self, timeout: u64, now: u64) -> (r: usize)
        ensures
            r == old(self)@.pool.len() - final(self)@.pool.len(),
            final(self)@ == (BackendModel {
                pool: fresh_connections(old(self)@.pool, timeout, now),
                connected_peers: if r > 0 {
                    #[verifier::truncate]
                    (final(self)@.pool.len() as u32)
                } else {
                    old(self)@.connected_peers
                },
                ..old(self)@
            }),
    {
        let count: usize = self.connection_pool.len();
        let ghost before = self.connection_pool@;
        let ghost stale = |c: Connection| elapsed(now, c.last_used) > timeout;
        let chosen = |c: &Connection| -> (b: bool)
            ensures
                b == stale(*c),
            { since(now, c.last_used) > timeout };
        let gone: Vec<[u8; 32]> = self.connection_pool.listed(chosen, Ghost(stale));
        self.connection_pool.remove_all(&gone);
        let left: usize = self.connection_pool.len();
        proof {
            let ghost ids = id_views(gone@);
            let after = self.connection_pool@;
            assert(pool_model(after) =~= fresh_connections(pool_model(before), timeout, now)) by {
                assert forall|k: Seq<u8>| after.dom().contains(k) <==> (before.dom().contains(k)
                    && elapsed(now, before[k].last_used) <= timeout) by {
                    assert(ids.to_set().contains(k) <==> ids.contains(k));
                    if before.dom().contains(k) {
                        assert(ids.contains(k) <==> stale(before[k]));
                    }
                }
            }
            assert(pool_model(after).dom() =~= after.dom());
            assert(pool_model(before).dom() =~= before.dom());
            ids.unique_seq_to_set();
            assert(ids.to_set().subset_of(before.dom())) by {
                assert forall|k: Seq<u8>| ids.to_set().contains(k) implies before.dom().contains(
                    k,
                ) by {
                    assert(ids.contains(k));
                }
            }
            assert(after.dom() =~= before.dom().difference(ids.to_set()));
            vstd::seq_lib::seq_to_set_is_finite(ids);
            vstd::set_lib::lemma_set_disjoint_lens(after.dom(), ids.to_set());
            assert(after.dom() + ids.to_set() =~= before.dom());
        }
        let removed: usize = gone.len();
        if removed > 0 {
            self.connected_peers = #[verifier::truncate]
            (left as u32);
        }
        removed
    }
}

/// Pushing an identifier that is not there keeps identifiers apart.
proof fn lemma_pushed_id(ids: Seq<Seq<u8>>, id: Seq<u8>)
    requires
        ids.no_duplicates(),
        forall|j: int| 0 <= j < ids.len() ==> ids[j] != id,
    ensures
        ids.push(id).no_duplicates(),
        ids.push(id).contains(id),
        forall|k: Seq<u8>| ids.contains(k) ==> ids.push(id).contains(k),
{
    assert(ids.push(id)[ids.len() as int] == id);
    assert forall|k: Seq<u8>| ids.contains(k) implies ids.push(id).contains(k) by {
        assert(ids.push(id)[ids.index_of(k)] == k);
    }
}

/// A cleanup leaves no stale connection and takes no fresh one.
pub proof fn lemma_cleanup(
    pool: Map<Seq<u8>, ConnectionModel>,
    timeout: u64,
    now: u64,
    node: Seq<u8>,
)
    ensures
        fresh_connections(pool, timeout, now).dom().contains(node) <==> (pool.dom().contains(node)
            && elapsed(now, pool[node].last_used) <= timeout),
{
}

/// A peer that the endpoint knows is connected without discovery, and one that it does
/// not know is never connected without it.
pub proof fn lemma_discovery_is_second(peer: Seq<u8>, resolution: Resolution)
    ensures
        address_source(peer, true, true, resolution) == address_source(
            peer,
            false,
            true,
            resolution,
        ),
        address_source(peer, true, true, resolution) is Ok,
        address_source(peer, false, false, resolution) is Err,
{
}

} // verus!
