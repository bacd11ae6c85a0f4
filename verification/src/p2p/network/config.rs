//! What a node is set up with. Durations are in milliseconds, sizes in bytes.
use crate::p2p::node;
use crate::p2p::node::{added, keys, NodeId};
use crate::text;
use vstd::prelude::*;

verus! {

/// How a node is connected.
#[derive(Clone, Copy, PartialEq, Eq, Structural, Debug)]
pub struct NetworkConfig {
    /// How long a connection may take to be made.
    pub connection_timeout: u64,
    /// How many peers there may be at a time.
    pub max_peers_per_session: usize,
    /// The size of the network's buffers.
    pub io_buffer_size: usize,
    /// How often a connection is kept alive.
    pub keepalive_interval: u64,
}

impl Default for NetworkConfig {
    fn default() -> (r: NetworkConfig)
        ensures
            r == (NetworkConfig {
                connection_timeout: 30_000,
                max_peers_per_session: 100,
                io_buffer_size: 65_536,
                keepalive_interval: 60_000,
            }),
    {
        NetworkConfig {
            connection_timeout: 30_000,
            max_peers_per_session: 100,
            io_buffer_size: 65_536,
            keepalive_interval: 60_000,
        }
    }
}

impl NetworkConfig {
    /// The settings for development.
    pub fn development() -> (r: NetworkConfig)
        ensures
            r == (NetworkConfig {
                connection_timeout: 10_000,
                max_peers_per_session: 10,
                io_buffer_size: 16_384,
                keepalive_interval: 30_000,
            }),
    {
        NetworkConfig {
            connection_timeout: 10_000,
            max_peers_per_session: 10,
            io_buffer_size: 16_384,
            keepalive_interval: 30_000,
        }
    }

    /// The settings for production.
    pub fn production() -> (r: NetworkConfig)
        ensures
            r == (NetworkConfig {
                connection_timeout: 60_000,
                max_peers_per_session: 1_000,
                io_buffer_size: 131_072,
                keepalive_interval: 120_000,
            }),
    {
        NetworkConfig {
            connection_timeout: 60_000,
            max_peers_per_session: 1_000,
            io_buffer_size: 131_072,
            keepalive_interval: 120_000,
        }
    }

    /// The settings for tests.
    pub fn testing() -> (r: NetworkConfig)
        ensures
            r == (NetworkConfig {
                connection_timeout: 5_000,
                max_peers_per_session: 5,
                io_buffer_size: 8_192,
                keepalive_interval: 15_000,
            }),
    {
        NetworkConfig {
            connection_timeout: 5_000,
            max_peers_per_session: 5,
            io_buffer_size: 8_192,
            keepalive_interval: 15_000,
        }
    }
}

/// How content is stored.
#[derive(Clone, Copy, PartialEq, Eq, Structural, Debug)]
pub struct StorageConfig {
    /// Whether content is cached in memory.
    pub enable_memory_cache: bool,
    /// How large the cache may be.
    pub max_cache_size: usize,
    /// How large a content may be.
    pub max_blob_size: usize,
    /// Whether garbage is collected.
    pub enable_gc: bool,
    /// How often it is collected.
    pub gc_interval: u64,
}

impl Default for StorageConfig {
    fn default() -> (r: StorageConfig)
        ensures
            r == (StorageConfig {
                enable_memory_cache: true,
                max_cache_size: 104_857_600,
                max_blob_size: 10_485_760,
                enable_gc: true,
                gc_interval: 3_600_000,
            }),
    {
        StorageConfig {
            enable_memory_cache: true,
            max_cache_size: 104_857_600,
            max_blob_size: 10_485_760,
            enable_gc: true,
            gc_interval: 3_600_000,
        }
    }
}

impl StorageConfig {
    /// The settings for development.
    pub fn development() -> (r: StorageConfig)
        ensures
            r == (StorageConfig {
                enable_memory_cache: true,
                max_cache_size: 10_485_760,
                max_blob_size: 5_242_880,
                enable_gc: false,
                gc_interval: 3_600_000,
            }),
    {
        StorageConfig {
            enable_memory_cache: true,
            max_cache_size: 10_485_760,
            max_blob_size: 5_242_880,
            enable_gc: false,
            gc_interval: 3_600_000,
        }
    }

    /// The settings for production.
    pub fn production() -> (r: StorageConfig)
        ensures
            r == (StorageConfig {
                enable_memory_cache: true,
                max_cache_size: 1_073_741_824,
                max_blob_size: 104_857_600,
                enable_gc: true,
                gc_interval: 1_800_000,
            }),
    {
        StorageConfig {
            enable_memory_cache: true,
            max_cache_size: 1_073_741_824,
            max_blob_size: 104_857_600,
            enable_gc: true,
            gc_interval: 1_800_000,
        }
    }

    /// The settings for tests.
    pub fn testing() -> (r: StorageConfig)
        ensures
            r == (StorageConfig {
                enable_memory_cache: false,
                max_cache_size: 1_048_576,
                max_blob_size: 524_288,
                enable_gc: false,
                gc_interval: 3_600_000,
            }),
    {
        StorageConfig {
            enable_memory_cache: false,
            max_cache_size: 1_048_576,
            max_blob_size: 524_288,
            enable_gc: false,
            gc_interval: 3_600_000,
        }
    }
}

/// How messages are gossiped.
#[derive(Clone, Copy, PartialEq, Eq, Structural, Debug)]
pub struct GossipConfig {
    /// How large a message may be.
    pub max_message_size: usize,
    /// How many messages are buffered.
    pub message_buffer_size: usize,
    /// How long an operation may take.
    pub operation_timeout: u64,
    /// How often there is a heartbeat.
    pub heartbeat_interval: u64,
    /// How many topics there may be.
    pub max_topics: usize,
}

impl Default for GossipConfig {
    fn default() -> (r: GossipConfig)
        ensures
            r == (GossipConfig {
                max_message_size: 1_048_576,
                message_buffer_size: 1_000,
                operation_timeout: 30_000,
                heartbeat_interval: 1_000,
                max_topics: 100,
            }),
    {
        GossipConfig {
            max_message_size: 1_048_576,
            message_buffer_size: 1_000,
            operation_timeout: 30_000,
            heartbeat_interval: 1_000,
            max_topics: 100,
        }
    }
}

impl GossipConfig {
    /// The settings for development.
    pub fn development() -> (r: GossipConfig)
        ensures
            r == (GossipConfig {
                max_message_size: 65_536,
                message_buffer_size: 100,
                operation_timeout: 10_000,
                heartbeat_interval: 2_000,
                max_topics: 10,
            }),
    {
        GossipConfig {
            max_message_size: 65_536,
            message_buffer_size: 100,
            operation_timeout: 10_000,
            heartbeat_interval: 2_000,
            max_topics: 10,
        }
    }

    /// The settings for production.
    pub fn production() -> (r: GossipConfig)
        ensures
            r == (GossipConfig {
                max_message_size: 10_485_760,
                message_buffer_size: 10_000,
                operation_timeout: 60_000,
                heartbeat_interval: 500,
                max_topics: 1_000,
            }),
    {
        GossipConfig {
            max_message_size: 10_485_760,
            message_buffer_size: 10_000,
            operation_timeout: 60_000,
            heartbeat_interval: 500,
            max_topics: 1_000,
        }
    }

    /// The settings for tests.
    pub fn testing() -> (r: GossipConfig)
        ensures
            r == (GossipConfig {
                max_message_size: 1_048_576,
                message_buffer_size: 10,
                operation_timeout: 5_000,
                heartbeat_interval: 5_000,
                max_topics: 5,
            }),
    {
        GossipConfig {
            max_message_size: 1_048_576,
            message_buffer_size: 10,
            operation_timeout: 5_000,
            heartbeat_interval: 5_000,
            max_topics: 5,
        }
    }
}

/// Everything that a node is set up with.
#[derive(Debug)]
pub struct ClientConfig {
    /// Whether topics can be published and subscribed to.
    pub enable_pubsub: bool,
    /// Where data is kept; in memory if nowhere.
    pub data_store_path: Option<String>,
    /// The port; any if 0.
    pub port: u16,
    /// The peers that are connected to at first.
    pub known_peers: Vec<NodeId>,
    /// Whether nodes are discovered everywhere.
    pub enable_discovery_n0: bool,
    /// Whether nodes are discovered on the local network.
    pub enable_discovery_mdns: bool,
    pub network: NetworkConfig,
    pub storage: StorageConfig,
    pub gossip: GossipConfig,
}

/// The model of a configuration.
#[verifier::ext_equal]
pub struct ConfigModel {
    pub enable_pubsub: bool,
    pub data_store_path: Option<Seq<char>>,
    pub port: u16,
    pub known_peers: Seq<Seq<u8>>,
    pub enable_discovery_n0: bool,
    pub enable_discovery_mdns: bool,
    pub network: NetworkConfig,
    pub storage: StorageConfig,
    pub gossip: GossipConfig,
}

/// The model of an optional path.
pub open spec fn path_model(path: Option<String>) -> Option<Seq<char>> {
    match path {
        Some(p) => Some(p@),
        None => None,
    }
}

impl View for ClientConfig {
    type V = ConfigModel;

    open spec fn view(&self) -> ConfigModel {
        ConfigModel {
            enable_pubsub: self.enable_pubsub,
            data_store_path: path_model(self.data_store_path),
            port: self.port,
            known_peers: keys(self.known_peers@),
            enable_discovery_n0: self.enable_discovery_n0,
            enable_discovery_mdns: self.enable_discovery_mdns,
            network: self.network,
            storage: self.storage,
            gossip: self.gossip,
        }
    }
}

/// What is wrong with a configuration, if anything is: a port that only an administrator
/// may use, an empty path, or no room in the cache.
pub open spec fn config_fault(config: ConfigModel) -> Option<Seq<char>> {
    if 0 < config.port < 1024 {
        Some("Port < 1024 requires administrator privileges"@)
    } else if config.data_store_path == Some(Seq::<char>::empty()) {
        Some("Storage path cannot be empty"@)
    } else if config.storage.max_cache_size == 0 {
        Some("Cache size cannot be zero"@)
    } else {
        None
    }
}

/// The configuration that is used by default.
pub open spec fn default_config() -> ConfigModel {
    ConfigModel {
        enable_pubsub: true,
        data_store_path: Some("./iroh_data"@),
        port: 0,
        known_peers: Seq::empty(),
        enable_discovery_n0: true,
        enable_discovery_mdns: true,
        network: NetworkConfig {
            connection_timeout: 30_000,
            max_peers_per_session: 100,
            io_buffer_size: 65_536,
            keepalive_interval: 60_000,
        },
        storage: StorageConfig {
            enable_memory_cache: true,
            max_cache_size: 104_857_600,
            max_blob_size: 10_485_760,
            enable_gc: true,
            gc_interval: 3_600_000,
        },
        gossip: GossipConfig {
            max_message_size: 1_048_576,
            message_buffer_size: 1_000,
            operation_timeout: 30_000,
            heartbeat_interval: 1_000,
            max_topics: 100,
        },
    }
}

/// The configuration for development.
pub open spec fn development_config() -> ConfigModel {
    ConfigModel {
        enable_pubsub: true,
        data_store_path: Some("./tmp/iroh_dev"@),
        port: 0,
        known_peers: Seq::empty(),
        enable_discovery_n0: false,
        enable_discovery_mdns: true,
        network: NetworkConfig {
            connection_timeout: 10_000,
            max_peers_per_session: 10,
            io_buffer_size: 16_384,
            keepalive_interval: 30_000,
        },
        storage: StorageConfig {
            enable_memory_cache: true,
            max_cache_size: 10_485_760,
            max_blob_size: 5_242_880,
            enable_gc: false,
            gc_interval: 3_600_000,
        },
        gossip: GossipConfig {
            max_message_size: 65_536,
            message_buffer_size: 100,
            operation_timeout: 10_000,
            heartbeat_interval: 2_000,
            max_topics: 10,
        },
    }
}

/// The configuration for production.
pub open spec fn production_config() -> ConfigModel {
    ConfigModel {
        enable_pubsub: true,
        data_store_path: Some("/var/lib/iroh"@),
        port: 4001,
        known_peers: Seq::empty(),
        enable_discovery_n0: true,
        enable_discovery_mdns: true,
        network: NetworkConfig {
            connection_timeout: 60_000,
            max_peers_per_session: 1_000,
            io_buffer_size: 131_072,
            keepalive_interval: 120_000,
        },
        storage: StorageConfig {
            enable_memory_cache: true,
            max_cache_size: 1_073_741_824,
            max_blob_size: 104_857_600,
            enable_gc: true,
            gc_interval: 1_800_000,
        },
        gossip: GossipConfig {
            max_message_size: 10_485_760,
            message_buffer_size: 10_000,
            operation_timeout: 60_000,
            heartbeat_interval: 500,
            max_topics: 1_000,
        },
    }
}

/// The configuration for tests.
pub open spec fn testing_config() -> ConfigModel {
    ConfigModel {
        enable_pubsub: true,
        data_store_path: None,
        port: 0,
        known_peers: Seq::empty(),
        enable_discovery_n0: false,
        enable_discovery_mdns: false,
        network: NetworkConfig {
            connection_timeout: 5_000,
            max_peers_per_session: 5,
            io_buffer_size: 8_192,
            keepalive_interval: 15_000,
        },
        storage: StorageConfig {
            enable_memory_cache: false,
            max_cache_size: 1_048_576,
            max_blob_size: 524_288,
            enable_gc: false,
            gc_interval: 3_600_000,
        },
        gossip: GossipConfig {
            max_message_size: 1_048_576,
            message_buffer_size: 10,
            operation_timeout: 5_000,
            heartbeat_interval: 5_000,
            max_topics: 5,
        },
    }
}

impl Default for ClientConfig {
    fn default() -> (r: ClientConfig)
        ensures
            r@ == default_config(),
    {
        let known_peers: Vec<NodeId> = Vec::new();
        assert(keys(known_peers@) =~= Seq::empty());
        ClientConfig {
            enable_pubsub: true,
            data_store_path: Some(text::owned("./iroh_data")),
            port: 0,
            known_peers,
            enable_discovery_n0: true,
            enable_discovery_mdns: true,
            network: NetworkConfig::default(),
            storage: StorageConfig::default(),
            gossip: GossipConfig::default(),
        }
    }
}

impl ClientConfig {
    /// The configuration for development.
    pub fn development() -> (r: ClientConfig)
        ensures
            r@ == development_config(),
    {
        let known_peers: Vec<NodeId> = Vec::new();
        assert(keys(known_peers@) =~= Seq::empty());
        ClientConfig {
            enable_pubsub: true,
            data_store_path: Some(text::owned("./tmp/iroh_dev")),
            port: 0,
            known_peers,
            enable_discovery_n0: false,
            enable_discovery_mdns: true,
            network: NetworkConfig::development(),
            storage: StorageConfig::development(),
            gossip: GossipConfig::development(),
        }
    }

    /// The configuration for production.
    pub fn production() -> (r: ClientConfig)
        ensures
            r@ == production_config(),
    {
        let known_peers: Vec<NodeId> = Vec::new();
        assert(keys(known_peers@) =~= Seq::empty());
        ClientConfig {
            enable_pubsub: true,
            data_store_path: Some(text::owned("/var/lib/iroh")),
            port: 4001,
            known_peers,
            enable_discovery_n0: true,
            enable_discovery_mdns: true,
            network: NetworkConfig::production(),
            storage: StorageConfig::production(),
            gossip: GossipConfig::production(),
        }
    }

    /// The configuration for tests.
    pub fn testing() -> (r: ClientConfig)
        ensures
            r@ == testing_config(),
    {
        let known_peers: Vec<NodeId> = Vec::new();
        assert(keys(known_peers@) =~= Seq::empty());
        ClientConfig {
            enable_pubsub: true,
            data_store_path: None,
            port: 0,
            known_peers,
            enable_discovery_n0: false,
            enable_discovery_mdns: false,
            network: NetworkConfig::testing(),
            storage: StorageConfig::testing(),
            gossip: GossipConfig::testing(),
        }
    }

    /// The configuration for development without a network.
    pub fn offline() -> (r: ClientConfig)
        ensures
            r@ == (ConfigModel {
                enable_pubsub: false,
                enable_discovery_n0: false,
                enable_discovery_mdns: false,
                ..development_config()
            }),
    {
        let mut r: ClientConfig = ClientConfig::development();
        r.enable_pubsub = false;
        r.enable_discovery_n0 = false;
        r.enable_discovery_mdns = false;
        r
    }

    /// Adds a peer that is connected to at first, unless it is known.
    pub fn add_known_peer(&mut self, peer: NodeId)
        ensures
            final(self)@ == (ConfigModel {
                known_peers: added(old(self)@.known_peers, peer@),
                ..old(self)@
            }),
    {
        node::add(&mut self.known_peers, &peer);
    }

    /// The configuration with another port.
    pub fn with_port(self, port: u16) -> (r: ClientConfig)
        ensures
            r@ == (ConfigModel { port, ..self@ }),
    {
        let mut r: ClientConfig = self;
        r.port = port;
        r
    }

    /// The configuration with another path.
    pub fn with_data_path(self, path: &str) -> (r: ClientConfig)
        ensures
            r@ == (ConfigModel { data_store_path: Some(path@), ..self@ }),
    {
        let mut r: ClientConfig = self;
        r.data_store_path = Some(text::owned(path));
        r
    }

    /// Checks the configuration.
    pub fn validate(&self) -> (r: Result<(), String>)
        ensures
            match config_fault(self@) {
                Some(fault) => r is Err && r->Err_0@ == fault,
                None => r is Ok,
            },
    {
        if self.port > 0 && self.port < 1024 {
            return Err(text::owned("Port < 1024 requires administrator privileges"));
        }
        match &self.data_store_path {
            Some(path) => {
                proof {
                    reveal_strlit("");
                    assert(""@ =~= Seq::<char>::empty());
                }
                if text::same_text(path.as_str(), "") {
                    return Err(text::owned("Storage path cannot be empty"));
                }
            },
            None => {},
        }
        if self.storage.max_cache_size == 0 {
            return Err(text::owned("Cache size cannot be zero"));
        }
        Ok(())
    }

    /// Whether data is kept on disk.
    pub fn uses_persistent_storage(&self) -> (r: bool)
        ensures
            r == self@.data_store_path is Some,
    {
        self.data_store_path.is_some()
    }

    /// Whether nodes are discovered in any way.
    pub fn has_discovery_enabled(&self) -> (r: bool)
        ensures
            r == (self@.enable_discovery_n0 || self@.enable_discovery_mdns),
    {
        self.enable_discovery_n0 || self.enable_discovery_mdns
    }
}

/// Every configuration that comes ready-made is valid.
pub proof fn lemma_presets_are_valid()
    ensures
        config_fault(default_config()) is None,
        config_fault(development_config()) is None,
        config_fault(production_config()) is None,
        config_fault(testing_config()) is None,
{
    reveal_strlit("./iroh_data");
    reveal_strlit("./tmp/iroh_dev");
    reveal_strlit("/var/lib/iroh");
    assert("./iroh_data"@.len() == 11);
    assert("./tmp/iroh_dev"@.len() == 14);
    assert("/var/lib/iroh"@.len() == 13);
}

} // verus!
