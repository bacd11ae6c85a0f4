//! What operations of a node take and give.
use crate::bytes;
use crate::bytes::utf8_text;
use crate::clock;
use crate::error::{outcome, Failure, GuardianError};
use crate::p2p::network::USER_AGENT;
use crate::p2p::node::NodeId;
use crate::text;
use crate::text::{decimal_text, numeral_value, text_added, texts};
use vstd::prelude::*;

verus! {

/// The answer to adding content.
#[derive(Debug)]
pub struct AddResponse {
    /// The hash of the content.
    pub hash: String,
    /// The name of the file, if it has one.
    pub name: String,
    /// The size in bytes, as a numeral.
    pub size: String,
}

impl AddResponse {
    /// The answer for content without a name.
    pub fn new(hash: String, size: usize) -> (r: AddResponse)
        ensures
            r.hash == hash,
            r.name@ == Seq::<char>::empty(),
            r.size@ == decimal_text(size as nat),
    {
        AddResponse { hash, name: String::new(), size: text::decimal(size as u64) }
    }

    /// The answer for content with a name.
    pub fn with_name(hash: String, name: String, size: usize) -> (r: AddResponse)
        ensures
            r.hash == hash,
            r.name == name,
            r.size@ == decimal_text(size as nat),
    {
        AddResponse { hash, name, size: text::decimal(size as u64) }
    }

    /// The size as a number.
    pub fn size_bytes(&self) -> (r: Result<usize, GuardianError>)
        ensures
            match numeral_value(self.size@) {
                Some(n) => if n <= usize::MAX {
                    outcome(r) == Ok::<usize, Failure>(n as usize)
                } else {
                    refused(r, "Invalid size format: "@)
                },
                None => refused(r, "Invalid size format: "@),
            },
    {
        match text::parse_usize(self.size.as_str()) {
            Some(n) => Ok(n),
            None => {
                let detail: String = text::describe_unparsed(self.size.as_str());
                let message: String = text::join2("Invalid size format: ", detail.as_str());
                assert(message@ == "Invalid size format: "@ + detail@);
                Err(GuardianError::Other(message))
            },
        }
    }
}

/// Whether an operation failed with a message that begins with some words.
pub open spec fn refused<T>(r: Result<T, GuardianError>, words: Seq<char>) -> bool {
    r is Err && exists|detail: Seq<char>| r->Err_0@ == Failure::Other(#[trigger] (words + detail))
}

/// The size that an answer was made with is read back.
pub proof fn lemma_size_is_read_back(size: usize)
    ensures
        numeral_value(decimal_text(size as nat)) == Some(size as nat),
{
    text::lemma_decimal_reads(size as nat);
}

/// What a node tells of itself.
#[derive(Debug)]
pub struct NodeInfo {
    /// The node.
    pub id: NodeId,
    /// Its public key as a text.
    pub public_key: String,
    /// The addresses that it is reached at.
    pub addresses: Vec<String>,
    /// What it calls itself.
    pub agent_version: String,
    /// The protocol that it speaks.
    pub protocol_version: String,
}

impl NodeInfo {
    /// What a node for development tells.
    pub fn mock(id: NodeId) -> (r: NodeInfo)
        ensures
            r.id == id,
            r.public_key@ == "mock_public_key"@,
            texts(r.addresses@) == seq!["127.0.0.1:11204"@],
            r.agent_version@ == USER_AGENT@ + "/0.1.0"@,
            r.protocol_version@ == "iroh/0.1.0"@,
    {
        let mut addresses: Vec<String> = Vec::new();
        addresses.push(text::owned("127.0.0.1:11204"));
        assert(texts(addresses@) =~= seq!["127.0.0.1:11204"@]);
        NodeInfo {
            id,
            public_key: text::owned("mock_public_key"),
            addresses,
            agent_version: text::join2(USER_AGENT, "/0.1.0"),
            protocol_version: text::owned("iroh/0.1.0"),
        }
    }

    /// Whether it is a node for development.
    pub fn is_mock(&self) -> (r: bool)
        ensures
            r == (self.public_key@ == "mock_public_key"@),
    {
        text::same_text(self.public_key.as_str(), "mock_public_key")
    }
}

/// A message on a topic.
#[derive(Debug)]
pub struct PubsubMessage {
    /// The sender.
    pub from: NodeId,
    /// What it says.
    pub data: Vec<u8>,
    /// Its number, if it has one.
    pub sequence_number: Option<u64>,
    /// The topic.
    pub topic: String,
    /// When it was sent, in seconds since the start of 1970.
    pub timestamp: u64,
}

impl PubsubMessage {
    /// A message that is sent at a time.
    pub fn sent_at(from: NodeId, topic: String, data: Vec<u8>, timestamp: u64) -> (r: PubsubMessage)
        ensures
            r == (PubsubMessage { from, data, sequence_number: Some(1u64), topic, timestamp }),
    {
        PubsubMessage { from, data, sequence_number: Some(1), topic, timestamp }
    }

    /// A message that is sent now.
    pub fn new(from: NodeId, topic: String, data: Vec<u8>) -> (r: PubsubMessage)
        ensures
            exists|now: u64|
                r == (PubsubMessage {
                    from,
                    data,
                    sequence_number: Some(1u64),
                    topic,
                    timestamp: now,
                }),
    {
        let now: u64 = clock::now_seconds();
        PubsubMessage::sent_at(from, topic, data, now)
    }

    /// The size of the data in bytes.
    pub fn data_size(&self) -> (r: usize)
        ensures
            r == self.data@.len(),
    {
        self.data.len()
    }

    /// The data as a text.
    pub fn data_as_string(&self) -> (r: Result<String, GuardianError>)
        ensures
            match utf8_text(self.data@) {
                Some(t) => r is Ok && r->Ok_0@ == t,
                None => refused(r, "Invalid UTF-8 data: "@),
            },
    {
        match bytes::text_of_utf8(bytes::to_vec(self.data.as_slice())) {
            Ok(t) => Ok(t),
            Err(detail) => {
                let message: String = text::join2("Invalid UTF-8 data: ", detail.as_str());
                assert(message@ == "Invalid UTF-8 data: "@ + detail@);
                Err(GuardianError::Other(message))
            },
        }
    }

    /// Whether the message is on a topic.
    pub fn is_from_topic(&self, topic: &str) -> (r: bool)
        ensures
            r == (self.topic@ == topic@),
    {
        text::same_text(self.topic.as_str(), topic)
    }
}

/// The data of a message that was made of a text is read back as it.
pub proof fn lemma_text_is_read_back(t: Seq<char>)
    ensures
        utf8_text(bytes::utf8(t)) == Some(t),
{
    vstd::utf8::encode_utf8_valid_utf8(t);
    vstd::utf8::encode_utf8_decode_utf8(t);
}

/// What is known of a peer.
#[derive(Debug)]
pub struct PeerInfo {
    /// The peer.
    pub id: NodeId,
    /// The addresses that it is reached at.
    pub addresses: Vec<String>,
    /// The protocols that it speaks.
    pub protocols: Vec<String>,
    /// Whether it is connected.
    pub connected: bool,
}

impl PeerInfo {
    /// A peer of which nothing is known yet.
    pub fn new(id: NodeId) -> (r: PeerInfo)
        ensures
            r.id == id,
            texts(r.addresses@) == Seq::<Seq<char>>::empty(),
            texts(r.protocols@) == seq!["iroh"@],
            !r.connected,
    {
        let mut protocols: Vec<String> = Vec::new();
        protocols.push(text::owned("iroh"));
        assert(texts(protocols@) =~= seq!["iroh"@]);
        let addresses: Vec<String> = Vec::new();
        assert(texts(addresses@) =~= Seq::<Seq<char>>::empty());
        PeerInfo { id, addresses, protocols, connected: false }
    }

    /// A peer for development.
    pub fn mock(id: NodeId, connected: bool) -> (r: PeerInfo)
        ensures
            r.id == id,
            texts(r.addresses@) == seq!["127.0.0.1:"@ + decimal_text(11268)],
            texts(r.protocols@) == seq!["iroh"@, "iroh-gossip"@],
            r.connected == connected,
    {
        let digits: usize = 64;
        let port: String = text::decimal(11204 + (digits as u64) % 1000);
        let mut addresses: Vec<String> = Vec::new();
        addresses.push(text::join2("127.0.0.1:", port.as_str()));
        let mut protocols: Vec<String> = Vec::new();
        protocols.push(text::owned("iroh"));
        protocols.push(text::owned("iroh-gossip"));
        assert(texts(protocols@) =~= seq!["iroh"@, "iroh-gossip"@]);
        assert(texts(addresses@) =~= seq!["127.0.0.1:"@ + decimal_text(11268)]);
        PeerInfo { id, addresses, protocols, connected }
    }

    /// Adds an address, unless it is known.
    pub fn add_address(&mut self, addr: String)
        ensures
            texts(final(self).addresses@) == text_added(texts(old(self).addresses@), addr@),
            final(self).id == old(self).id,
            final(self).protocols == old(self).protocols,
            final(self).connected == old(self).connected,
    {
        text::add_text(&mut self.addresses, addr);
    }

    /// Adds a protocol, unless it is known.
    pub fn add_protocol(&mut self, protocol: String)
        ensures
            texts(final(self).protocols@) == text_added(texts(old(self).protocols@), protocol@),
            final(self).id == old(self).id,
            final(self).addresses == old(self).addresses,
            final(self).connected == old(self).connected,
    {
        text::add_text(&mut self.protocols, protocol);
    }

    /// Notes whether the peer is connected.
    pub fn set_connected(&mut self, connected: bool)
        ensures
            *final(self) == (PeerInfo { connected, ..*old(self) }),
    {
        self.connected = connected;
    }
}

/// The answer to pinning content.
#[derive(Debug)]
pub struct PinResponse {
    /// The hash of the content.
    pub hash: String,
    /// How it is pinned.
    pub pin_type: PinType,
}

/// How content is pinned.
#[derive(Clone, Copy, PartialEq, Eq, Structural, Debug)]
pub enum PinType {
    /// The content alone.
    Direct,
    /// The content and all that it refers to.
    Recursive,
}

impl PinType {
    /// The word for it.
    pub fn render(&self) -> (r: String)
        ensures
            r@ == match *self {
                PinType::Direct => "direct"@,
                PinType::Recursive => "recursive"@,
            },
    {
        match self {
            PinType::Direct => text::owned("direct"),
            PinType::Recursive => text::owned("recursive"),
        }
    }
}

/// What a store holds.
#[derive(Debug)]
pub struct RepoStats {
    /// The number of contents.
    pub num_objects: u64,
    /// Their size in bytes.
    pub repo_size: u64,
    /// Where the store is.
    pub repo_path: String,
    /// Its version.
    pub version: String,
}

impl Default for RepoStats {
    fn default() -> (r: RepoStats)
        ensures
            r.num_objects == 0,
            r.repo_size == 0,
            r.repo_path@ == "/tmp/guardian-db"@,
            r.version@ == "12"@,
    {
        RepoStats {
            num_objects: 0,
            repo_size: 0,
            repo_path: text::owned("/tmp/guardian-db"),
            version: text::owned("12"),
        }
    }
}

/// Which version a node is of.
#[derive(Debug)]
pub struct VersionInfo {
    /// The version of the database.
    pub version: String,
    /// The commit that it was built from.
    pub commit: String,
    /// The version of its store.
    pub repo: String,
    /// The operating system.
    pub system: String,
}

impl VersionInfo {
    /// The version, on an operating system.
    pub fn on(system: String) -> (r: VersionInfo)
        ensures
            r.version@ == "guardian-db-0.1.0"@,
            r.commit@ == "unknown"@,
            r.repo@ == "12"@,
            r.system == system,
    {
        VersionInfo {
            version: text::owned("guardian-db-0.1.0"),
            commit: text::owned("unknown"),
            repo: text::owned("12"),
            system,
        }
    }
}

} // verus!
