use guardian_db::hash::ContentHash;
use guardian_db::p2p::network::backend::{
    added_content, cat, choose_address, connection_refused, data_directory,
    discover_peer_integrated, load_or_generate_node_secret_key, map_iroh_error, node_info,
    record_snapshot, repo_stat, version, AddressSource, BlobFormat, CatStep, IrohBackend, PinType,
    Resolution, TagInfo, CONNECTION_FRESH, DISCOVERY_FRESH, MAX_SNAPSHOTS, SECRET_KEY_FILE,
};
use guardian_db::p2p::network::config::ClientConfig;
use guardian_db::p2p::node::NodeId;
use guardian_db::pgwire::{cache_key, make_tag, param_kind, DescribeCache, ParamKind};

fn node(byte: u8) -> NodeId {
    NodeId { bytes: [byte; 32] }
}

fn hash_text(byte: u8) -> String {
    ContentHash { bytes: [byte; 32] }.hash_to_string()
}

#[test]
fn a_node_needs_a_directory() {
    assert_eq!(
        data_directory(&ClientConfig::default().with_data_path("/d")).unwrap(),
        "/d"
    );
    assert_eq!(
        data_directory(&ClientConfig::testing()).unwrap_err().message(),
        "Data directory not configured for the Iroh backend"
    );
    assert_eq!(SECRET_KEY_FILE, "node_secret.key");
}

#[test]
fn a_secret_key_is_read_or_made() {
    let (key, save) = load_or_generate_node_secret_key(Some(vec![5; 32]));
    assert_eq!(key, [5; 32]);
    assert!(!save);
    let (key, save) = load_or_generate_node_secret_key(Some(vec![5; 33]));
    assert_ne!(key, [5; 32]);
    assert!(save);
    let (other, _) = load_or_generate_node_secret_key(None);
    assert_ne!(key, other);
}

#[test]
fn the_status_follows_the_operations() {
    let mut backend = IrohBackend::new(node(1), 0);
    assert!(!backend.is_online());
    let health = backend.health_check(true, true, 3);
    assert!(!health.healthy);
    assert_eq!(health.checks[0].message, "Iroh node offline: unknown reason");
    backend.started(1);
    assert_eq!(backend.operation_counts(), (0, 0));
    backend.operation_finished(Err("broken".to_string()), 2);
    assert_eq!(backend.operation_counts(), (1, 1));
    let health = backend.health_check(true, false, 3);
    assert!(health.healthy);
    assert_eq!(health.message, "Iroh backend operational");
    assert_eq!(health.checks[2].message, "Error accessing metrics");
    assert!(!backend.health_check(false, true, 3).healthy);
    backend.shutdown(4);
    let health = backend.health_check(true, true, 3);
    assert_eq!(health.message, "Iroh backend has problems");
    assert_eq!(health.checks[0].message, "Iroh node offline: broken");
}

#[test]
fn content_is_pinned_listed_and_unpinned() {
    let mut backend = IrohBackend::new(node(1), 0);
    let hash = hash_text(0xab);
    let (parsed, tag) = backend.pin_add(&hash, true).unwrap();
    assert_eq!(parsed.bytes, [0xab; 32]);
    assert_eq!(tag, format!("pin-{}", hash));
    assert_eq!(
        backend.pin_add(&hash, false).unwrap_err().message(),
        &format!("Content {} not found in the store", hash)
    );
    assert!(backend.pin_add("invalid_hash", true).is_err());
    backend.pinned(&hash);
    backend.pinned("only-remembered");
    let tags = vec![
        TagInfo {
            name: tag.into_bytes(),
            format: BlobFormat::Raw,
        },
        TagInfo {
            name: b"doc_other".to_vec(),
            format: BlobFormat::HashSeq,
        },
    ];
    let pins = backend.pin_ls(&tags);
    assert_eq!(pins.len(), 2);
    assert_eq!(pins[0].hash, hash);
    assert_eq!(pins[0].pin_type, PinType::Recursive);
    assert_eq!(pins[1].hash, "only-remembered");
    assert_eq!(pins[1].pin_type, PinType::Direct);
    assert_eq!(backend.pin_rm(&hash).unwrap(), format!("pin-{}", hash));
    assert_eq!(
        backend.pin_rm(&hash).unwrap_err().message(),
        &format!("Object {} was not pinned", hash)
    );
}

#[test]
fn content_comes_from_the_cache_or_the_store() {
    assert!(matches!(
        cat("invalid_hash", Some(vec![1])),
        Ok(CatStep::Cached(_))
    ));
    assert!(cat("invalid_hash", None).is_err());
    assert_eq!(
        cat("abcd", None).unwrap_err().message(),
        "Hash must be 32 bytes, found: 2"
    );
    match cat(&hash_text(3), None).unwrap() {
        CatStep::Fetch(hash) => assert_eq!(hash.bytes, [3; 32]),
        other => panic!("wrong: {:?}", other),
    }
    let added = added_content(&ContentHash { bytes: [3; 32] }, 12);
    assert_eq!(added.hash, hash_text(3));
    assert_eq!(added.name, "unnamed");
    assert_eq!(added.size, "12");
}

#[test]
fn an_address_is_looked_for_in_order() {
    let peer = node(0x1f);
    assert_eq!(
        choose_address(&peer, false, true, Resolution::Empty).unwrap(),
        AddressSource::Remote
    );
    assert_eq!(
        choose_address(&peer, true, false, Resolution::Found).unwrap(),
        AddressSource::Discovery
    );
    assert_eq!(
        choose_address(&peer, false, false, Resolution::Found)
            .unwrap_err()
            .message(),
        "Discovery não disponível e node 1f1f1f1f1f não encontrado em remote_info"
    );
    assert_eq!(
        choose_address(&peer, true, false, Resolution::Empty)
            .unwrap_err()
            .message(),
        "Node 1f1f1f1f1f não encontrado via discovery (stream vazio)"
    );
    assert_eq!(
        choose_address(&peer, true, false, Resolution::Unsupported)
            .unwrap_err()
            .message(),
        "Discovery não suporta resolve para node 1f1f1f1f1f"
    );
    assert_eq!(
        choose_address(&peer, true, false, Resolution::Failed("dns".to_string()))
            .unwrap_err()
            .message(),
        "Erro ao resolver node 1f1f1f1f1f via discovery: dns"
    );
    assert_eq!(
        connection_refused(&peer, "timeout").message(),
        "Falha ao estabelecer conexão QUIC com 1f1f1f1f1f: timeout"
    );
    assert_eq!(map_iroh_error("x").message(), "Iroh error: x");
    let found = discover_peer_integrated(&peer, vec![], vec!["a".to_string()]).unwrap();
    assert_eq!(found, vec!["a".to_string()]);
    assert!(discover_peer_integrated(&peer, vec![], vec![]).is_err());
}

#[test]
fn connections_are_used_and_cleaned_up() {
    let mut backend = IrohBackend::new(node(1), 0);
    backend.connected(&node(2), None, 10);
    backend.connected(&node(3), Some("1.2.3.4:5".to_string()), 20);
    assert_eq!(
        backend.get_connection_pool_status(),
        "Connection pool active with 2 peers"
    );
    let used = backend.get_connection_from_pool(&node(2), 50).unwrap();
    assert_eq!(used.address, "unknown");
    assert_eq!(used.operations_count, 1);
    assert_eq!(used.last_used, 50);
    assert_eq!(
        backend
            .get_connection_from_pool(&node(9), 50)
            .unwrap_err()
            .message(),
        "Connection not found in the pool: 0909090909"
    );
    backend
        .update_connection_latency(&node(2), 1.5f64.to_bits())
        .unwrap();
    let listed = backend.list_active_connections();
    let two = listed.iter().find(|c| c.node_id.same(&node(2))).unwrap();
    assert_eq!(f64::from_bits(two.latency_bits), 1.5);
    assert_eq!(backend.cleanup_stale_connections(30, 60), 1);
    assert!(backend.remove_connection_from_pool(&node(3)).is_err());
    assert!(backend.remove_connection_from_pool(&node(2)).is_ok());
    assert!(backend.list_active_connections().is_empty());
}

#[test]
fn peers_are_those_connected_and_those_discovered() {
    let mut backend = IrohBackend::new(node(1), 0);
    backend.resolved(&node(2), vec!["d".to_string()], 0);
    backend.resolved(&node(3), vec!["e".to_string()], 0);
    backend.connected(&node(2), Some("c".to_string()), 0);
    let peers = backend.peers(DISCOVERY_FRESH);
    assert_eq!(peers.len(), 2);
    assert!(peers[0].id.same(&node(2)));
    assert_eq!(peers[0].addresses, vec!["c".to_string()]);
    assert_eq!(peers[0].protocols.len(), 3);
    assert!(peers[0].connected);
    assert!(peers[1].id.same(&node(3)));
    assert_eq!(peers[1].protocols, vec!["iroh".to_string()]);
    assert!(!peers[1].connected);
    assert!(!backend.peers(CONNECTION_FRESH)[0].connected);
    assert_eq!(backend.estimate_memory_usage(1_000), 1_512);
    backend.note_known_peer(&node(5));
    backend.note_known_peer(&node(5));
    assert_eq!(backend.known_peers().len(), 1);
}

#[test]
fn what_a_node_tells_of_itself() {
    let info = node_info(&node(2), vec!["a".to_string()]);
    assert_eq!(info.public_key, format!("iroh-node-{}", "02".repeat(32)));
    assert_eq!(info.agent_version, "guardian-db-iroh/0.1.0");
    assert_eq!(info.protocol_version, "iroh-protocols/0.92.0");
    let stats = repo_stat("/d/iroh_store".to_string(), &vec![5, 6]);
    assert_eq!(stats.num_objects, 2);
    assert_eq!(stats.repo_size, 11);
    assert_eq!(stats.version, "15");
    let told = version("linux".to_string());
    assert_eq!(told.version, "iroh-0.92.0");
    assert_eq!(told.commit, "embedded");
}

#[test]
fn snapshots_are_bounded() {
    let mut history: Vec<usize> = Vec::new();
    let mut i = 0;
    while i < MAX_SNAPSHOTS + 3 {
        record_snapshot(&mut history, i);
        i += 1;
    }
    assert_eq!(history.len(), MAX_SNAPSHOTS);
    assert_eq!(history[0], 3);
}

#[test]
fn command_tags_are_taken_apart() {
    let insert = make_tag("INSERT 0 3");
    assert_eq!(insert.command, "INSERT");
    assert_eq!(insert.oid, Some(0));
    assert_eq!(insert.rows, Some(3));
    let select = make_tag("SELECT 12");
    assert_eq!(select.command, "SELECT");
    assert_eq!(select.rows, Some(12));
    let create = make_tag("CREATE TABLE");
    assert_eq!(create.command, "CREATE TABLE");
    assert_eq!(create.rows, None);
}

#[test]
fn a_description_is_fetched_once() {
    let mut cache: DescribeCache<u8> = DescribeCache::new();
    cache.described(cache_key("SELECT $1", "[1]"), 7);
    assert_eq!(cache.fetch(&cache_key("SELECT $1", "[2]")), None);
    assert_eq!(cache.fetch(&cache_key("SELECT $1", "[1]")), Some(7));
    assert_eq!(cache.fetch(&cache_key("SELECT $1", "[1]")), None);
    assert_eq!(param_kind(16), ParamKind::Bool);
    assert_eq!(param_kind(23), ParamKind::Int4);
    assert_eq!(param_kind(99_999), ParamKind::Text);
}
