use guardian_db::p2p::network::backend::docs::WillowDocs;
use guardian_db::p2p::network::backend::{cat, node_info};
use guardian_db::p2p::network::client::IrohClient;
use guardian_db::p2p::network::config::ClientConfig;
use guardian_db::p2p::network::types::{
    AddResponse, NodeInfo, PeerInfo, PinType, PubsubMessage, RepoStats, VersionInfo,
};
use guardian_db::p2p::network::{USER_AGENT, VERSION};
use guardian_db::p2p::node::NodeId;

fn random_node() -> NodeId {
    NodeId {
        bytes: *iroh::SecretKey::generate().public().as_bytes(),
    }
}

fn node(byte: u8) -> NodeId {
    NodeId { bytes: [byte; 32] }
}

#[test]
fn test_add_response() {
    let response = AddResponse::new("abc123def456".to_string(), 1024);
    assert_eq!(response.hash, "abc123def456");
    assert_eq!(response.size_bytes().unwrap(), 1024);

    let with_name = AddResponse::with_name("789ghi012jkl".to_string(), "test.txt".to_string(), 512);
    assert_eq!(with_name.name, "test.txt");
    assert_eq!(with_name.size_bytes().unwrap(), 512);
}

#[test]
fn types_test_node_info() {
    let node_id = random_node();
    let info = NodeInfo::mock(node_id);

    assert_eq!(info.id.bytes, node_id.bytes);
    assert!(info.is_mock());
    assert!(info.agent_version.contains("guardian-db"));
}

#[test]
fn test_pubsub_message() {
    let node_id = random_node();
    let topic = "test-topic".to_string();
    let data = b"Hello, PubSub!".to_vec();

    let msg = PubsubMessage::new(node_id, topic.clone(), data.clone());

    assert_eq!(msg.from.bytes, node_id.bytes);
    assert_eq!(msg.topic, topic);
    assert_eq!(msg.data, data);
    assert!(msg.is_from_topic("test-topic"));
    assert!(!msg.is_from_topic("other-topic"));
    assert_eq!(msg.data_size(), 14);
    assert_eq!(msg.data_as_string().unwrap(), "Hello, PubSub!");
}

#[test]
fn test_peer_info() {
    let node_id = random_node();
    let mut info = PeerInfo::new(node_id);

    assert_eq!(info.id.bytes, node_id.bytes);
    assert!(!info.connected);

    info.add_address("127.0.0.1:11204".to_string());
    info.add_protocol("iroh-gossip".to_string());
    info.set_connected(true);

    assert!(info.connected);
    assert!(info.addresses.contains(&"127.0.0.1:11204".to_string()));
    assert!(info.protocols.contains(&"iroh-gossip".to_string()));
}

#[test]
fn test_pin_type_display() {
    assert_eq!(PinType::Direct.render(), "direct");
    assert_eq!(PinType::Recursive.render(), "recursive");
}

#[test]
fn a_size_that_is_no_number_is_refused() {
    let mut response = AddResponse::new("h".to_string(), 0);
    assert_eq!(response.size, "0");
    assert_eq!(response.name, "");
    response.size = "12kb".to_string();
    assert_eq!(
        response.size_bytes().unwrap_err().message(),
        "Invalid size format: invalid digit found in string"
    );
    response.size = String::new();
    assert_eq!(
        response.size_bytes().unwrap_err().message(),
        "Invalid size format: cannot parse integer from empty string"
    );
    response.size = "+7".to_string();
    assert_eq!(response.size_bytes().unwrap(), 7);
    response.size = usize::MAX.to_string();
    assert_eq!(response.size_bytes().unwrap(), usize::MAX);
    response.size = "99999999999999999999999".to_string();
    assert!(response.size_bytes().is_err());
}

#[test]
fn data_that_is_no_text_is_refused() {
    let msg = PubsubMessage::sent_at(node(1), "t".to_string(), vec![0xff, 0xfe], 77);
    assert_eq!(msg.timestamp, 77);
    assert!(msg
        .data_as_string()
        .unwrap_err()
        .message()
        .starts_with("Invalid UTF-8 data: "));
    let text = PubsubMessage::sent_at(node(1), "t".to_string(), "olá".as_bytes().to_vec(), 77);
    assert_eq!(text.data_as_string().unwrap(), "olá");
}

#[test]
fn addresses_and_protocols_are_kept_once() {
    let mut info = PeerInfo::new(node(2));
    info.add_address("a".to_string());
    info.add_address("a".to_string());
    info.add_protocol("iroh".to_string());
    assert_eq!(info.addresses, vec!["a".to_string()]);
    assert_eq!(info.protocols, vec!["iroh".to_string()]);
    let mock = PeerInfo::mock(node(3), true);
    assert!(mock.connected);
    assert_eq!(mock.addresses, vec!["127.0.0.1:11268".to_string()]);
}

#[test]
fn defaults_of_a_store_and_a_version() {
    let stats = RepoStats::default();
    assert_eq!(stats.num_objects, 0);
    assert_eq!(stats.repo_path, "/tmp/guardian-db");
    assert_eq!(stats.version, "12");
    let version = VersionInfo::on("linux".to_string());
    assert_eq!(version.version, "guardian-db-0.1.0");
    assert_eq!(version.system, "linux");
    assert_eq!(VERSION, "0.1.0");
    assert_eq!(USER_AGENT, "guardian-db-network-core/0.1.0");
}

#[test]
fn test_default_config() {
    let config = ClientConfig::default();
    assert!(config.enable_pubsub);
    assert!(config.enable_discovery_n0);
    assert!(config.enable_discovery_mdns);
    assert!(config.validate().is_ok());
}

#[test]
fn test_development_config() {
    let config = ClientConfig::development();
    assert!(config.enable_pubsub);
    assert!(!config.enable_discovery_n0);
    assert!(config.enable_discovery_mdns);
    assert_eq!(config.port, 0);
}

#[test]
fn test_production_config() {
    let config = ClientConfig::production();
    assert!(config.enable_pubsub);
    assert!(config.enable_discovery_n0);
    assert!(config.enable_discovery_mdns);
    assert_eq!(config.port, 4001);
}

#[test]
fn test_testing_config() {
    let config = ClientConfig::testing();
    assert!(config.enable_pubsub);
    assert!(!config.enable_discovery_n0);
    assert!(!config.enable_discovery_mdns);
    assert_eq!(config.port, 0);
}

#[test]
fn test_offline_config() {
    let config = ClientConfig::offline();
    assert!(!config.enable_pubsub);
    assert!(!config.enable_discovery_n0);
    assert!(!config.enable_discovery_mdns);
}

#[test]
fn test_config_validation() {
    let mut config = ClientConfig::default();
    assert!(config.validate().is_ok());

    config.port = 80;
    assert!(config.validate().is_err());

    config.port = 0;
    assert!(config.validate().is_ok());

    config.port = 4001;
    assert!(config.validate().is_ok());
}

#[test]
fn test_add_known_peer() {
    let mut config = ClientConfig::default();
    let peer = random_node();

    config.add_known_peer(peer);
    assert!(config.known_peers.iter().any(|p| p.same(&peer)));

    config.add_known_peer(peer);
    assert_eq!(config.known_peers.len(), 1);
}

#[test]
fn test_with_data_path() {
    let config = ClientConfig::default().with_data_path("/custom/path");
    assert_eq!(config.data_store_path, Some("/custom/path".to_string()));
}

#[test]
fn test_with_port() {
    let config = ClientConfig::default().with_port(8080);
    assert_eq!(config.port, 8080);
}

#[test]
fn test_persistent_storage_detection() {
    let persistent_config = ClientConfig::development();
    assert!(persistent_config.uses_persistent_storage());

    let memory_config = ClientConfig::testing();
    assert!(!memory_config.uses_persistent_storage());
}

#[test]
fn test_discovery_detection() {
    let with_discovery = ClientConfig::default();
    assert!(with_discovery.has_discovery_enabled());

    let without_discovery = ClientConfig::offline();
    assert!(!without_discovery.has_discovery_enabled());
}

#[test]
fn test_get_channel_id() {
    let client = IrohClient::development(random_node()).unwrap();
    let other_peer = random_node();

    let channel_id = client.get_channel_id(&other_peer);
    assert!(channel_id.starts_with("/guardian-db/one-on-one-channel/1/"));

    let channel_id2 = client.get_channel_id(&other_peer);
    assert_eq!(channel_id, channel_id2);
}

fn timestamp() -> u128 {
    std::time::SystemTime::now()
        .duration_since(std::time::UNIX_EPOCH)
        .unwrap()
        .as_nanos()
}

#[test]
fn client_test_client_creation() {
    let mut config = ClientConfig::development();
    config.data_store_path = Some(format!("./tmp/test_creation_{}", timestamp()));
    let client = IrohClient::new(config, random_node());
    assert!(client.is_ok());
}

#[test]
fn test_blobs_client_initialization() {
    let mut config = ClientConfig::development();
    let data_path = format!("./tmp/test_blobs_{}", timestamp());
    config.data_store_path = Some(data_path);
    let client = IrohClient::new(config, random_node()).unwrap();

    assert!(
        client.has_blobs_client(),
        "blobs_client should be initialized automatically"
    );

    let blobs = client.blobs_client();
    assert!(blobs.is_some(), "blobs_client() should return Some");
    assert!(blobs.unwrap().has_p2p_support());
}

#[test]
fn test_blobs_client_manual_init() {
    let mut config = ClientConfig::development();
    let base_path = format!("./tmp/test_manual_blobs_{}", timestamp());
    config.data_store_path = Some(base_path);

    let mut client = IrohClient::new(config, random_node()).unwrap();

    assert!(
        client.has_blobs_client(),
        "blobs_client should be initialized automatically when data_store_path is present"
    );

    client.init_blobs(false);
    assert!(client.has_blobs_client(), "Re-initialization should be allowed");
    assert!(!client.blobs_client().unwrap().has_p2p_support());
}

#[test]
fn client_test_node_info() {
    let mut config = ClientConfig::development();
    config.data_store_path = Some("./tmp/iroh_test_info_1".to_string());
    let client = IrohClient::new(config, random_node()).unwrap();
    let info = node_info(&client.node_id(), vec![]);
    assert_eq!(info.id.bytes, client.node_id().bytes);
}

#[test]
fn test_error_handling() {
    let result = cat("invalid_hash", None);
    assert!(result.is_err());
}

#[test]
fn documents_are_there_once_they_were_taken_up() {
    let mut client = IrohClient::new_with_backend(node(3));
    assert!(!client.has_docs_client());
    assert!(client.docs_client().is_none());
    assert!(!client.has_blobs_client());
    assert_eq!(client.config().port, 0);
    let mut docs = WillowDocs::new();
    docs.found_default(Some([5; 32]));
    client.init_docs(docs);
    assert!(client.has_docs_client());
    let author = client.docs_client().unwrap().default_author_id(Err("none".to_string()));
    assert_eq!(author.unwrap(), [5; 32]);
}

#[test]
fn a_client_without_a_directory_is_not_made() {
    assert!(IrohClient::default(node(1)).is_ok());
    assert!(IrohClient::production(node(1)).is_ok());
    let refused = IrohClient::testing(node(1)).err().unwrap();
    assert_eq!(
        refused.message(),
        "Data directory not configured for the Iroh backend"
    );
}

#[test]
fn both_ends_of_a_channel_give_it_one_id() {
    let a = IrohClient::development(node(0xaa)).unwrap();
    let b = IrohClient::development(node(0x0b)).unwrap();
    assert_eq!(a.get_channel_id(&b.node_id()), b.get_channel_id(&a.node_id()));
    assert_eq!(
        a.get_channel_id(&b.node_id()),
        format!(
            "/guardian-db/one-on-one-channel/1/{}/{}",
            "0b".repeat(32),
            "aa".repeat(32)
        )
    );
    assert_eq!(a.config().port, 0);
}

#[test]
fn a_client_is_not_made_of_an_invalid_config() {
    let config = ClientConfig::testing().with_port(80);
    let refused = IrohClient::new(config, node(1)).err().unwrap();
    assert_eq!(
        refused.message(),
        "Invalid configuration: Port < 1024 requires administrator privileges"
    );
}

#[test]
fn test_module_initialization() {
    let config = ClientConfig {
        data_store_path: Some(format!("./tmp/test_init_{}", timestamp())),
        ..ClientConfig::development()
    };
    let client = IrohClient::new(config, random_node());
    assert!(client.is_ok());
}

#[test]
fn mod_test_node_info() {
    let config = ClientConfig {
        data_store_path: Some(format!("./tmp/test_info_{}", timestamp())),
        ..ClientConfig::development()
    };
    let client = IrohClient::new(config, random_node()).unwrap();
    let info = node_info(&client.node_id(), vec!["127.0.0.1:4001".to_string()]);

    assert!(!info.agent_version.is_empty());
    assert!(info.agent_version.contains("guardian-db"));
    assert_eq!(info.addresses, vec!["127.0.0.1:4001".to_string()]);
}
