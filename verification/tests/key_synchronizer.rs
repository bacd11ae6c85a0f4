use ed25519_dalek::Verifier;
use guardian_db::log::identity_provider::{InMemoryKeystore, Keystore};
use guardian_db::p2p::network::backend::key_synchronizer::{
    load_or_generate_keypair, KeyMetadata, KeySyncStatus, KeySynchronizer, SyncMessage,
    SyncOperation, SyncPlan, MAIN_KEYPAIR_KEY, MAX_MESSAGE_AGE, SYNC_PROTOCOL_VERSION,
};
use guardian_db::p2p::node::NodeId;

fn synchronizer() -> KeySynchronizer {
    KeySynchronizer::new(&mut InMemoryKeystore::new()).unwrap()
}

fn random_node() -> NodeId {
    NodeId {
        bytes: *iroh::SecretKey::generate().public().as_bytes(),
    }
}

fn metadata(key_id: &str, version: u64, creator: NodeId) -> KeyMetadata {
    KeyMetadata {
        key_id: key_id.to_string(),
        version,
        last_modified: 1_700_000_000_123_456_789,
        creator,
        signature: Vec::new(),
        crypto_algorithm: "Ed25519".to_string(),
        public_key_hash: vec![1, 2, 3, 4],
    }
}

fn signed(
    sender: &KeySynchronizer,
    operation: SyncOperation,
    key_id: &str,
    version: u64,
    data: Option<Vec<u8>>,
    id: u8,
    timestamp: u64,
) -> SyncMessage {
    let metadata = metadata(key_id, version, sender.node_id());
    let message = sender.sync_message_at(operation, metadata, data, [id; 16], timestamp);
    sender.sign_sync_message(message).unwrap()
}

#[test]
fn test_key_synchronizer_creation() {
    let synchronizer = synchronizer();
    assert!(!synchronizer.node_id().render().is_empty());
}

#[test]
fn test_sync_message_creation_and_verification() {
    let synchronizer = synchronizer();
    let message = synchronizer
        .create_sync_message(
            SyncOperation::Create,
            metadata("test_key", 1, synchronizer.node_id()),
            Some(b"test_data".to_vec()),
        )
        .unwrap();

    assert_eq!(message.protocol_version, SYNC_PROTOCOL_VERSION);
    assert!(message.sender.same(&synchronizer.node_id()));
    assert_eq!(message.operation, SyncOperation::Create);
    assert!(!message.message_signature.is_empty());
}

#[test]
fn keypair_persists_across_reload() {
    let mut keystore = InMemoryKeystore::new();
    let first = KeySynchronizer::new(&mut keystore).unwrap();
    let id_first = first.node_id();
    drop(first);

    let second = KeySynchronizer::new(&mut keystore).unwrap();
    assert!(
        id_first.same(&second.node_id()),
        "the keypair should be persisted and reloaded"
    );
}

#[test]
fn distinct_data_paths_yield_distinct_keys() {
    assert!(!synchronizer().node_id().same(&synchronizer().node_id()));
}

#[test]
fn add_list_remove_trusted_peer() {
    let mut sync = synchronizer();
    let peer = random_node();
    let vkey = sync.node_id().bytes;

    assert!(sync.list_trusted_peers().is_empty());

    sync.add_trusted_peer(peer, vkey);
    let peers = sync.list_trusted_peers();
    assert_eq!(peers.len(), 1);
    assert!(peers.iter().any(|p| p.same(&peer)));

    assert!(sync.remove_trusted_peer(&peer));
    assert!(sync.list_trusted_peers().is_empty());
}

#[test]
fn remove_absent_trusted_peer_returns_false() {
    let mut sync = synchronizer();
    let absent = random_node();
    assert!(!sync.remove_trusted_peer(&absent));
}

#[test]
fn add_trusted_peer_is_idempotent_on_node_id() {
    let mut sync = synchronizer();
    let peer = random_node();
    let vkey = sync.node_id().bytes;

    sync.add_trusted_peer(peer, vkey);
    sync.add_trusted_peer(peer, vkey);
    assert_eq!(sync.list_trusted_peers().len(), 1);
}

#[test]
fn fresh_synchronizer_has_empty_state() {
    let sync = synchronizer();
    assert!(sync.list_synchronized_keys().is_empty());
    assert!(sync.list_trusted_peers().is_empty());
}

#[test]
fn the_node_of_a_key_pair_is_its_public_key() {
    let secret = iroh::SecretKey::generate();
    let sync = KeySynchronizer::with_secret(secret.to_bytes());
    assert_eq!(sync.node_id().as_bytes(), secret.public().as_bytes());
    assert_eq!(sync.signing_key(), &secret.to_bytes());
}

#[test]
fn a_stored_key_of_the_wrong_length_is_replaced() {
    let mut keystore = InMemoryKeystore::new();
    keystore.put(MAIN_KEYPAIR_KEY, &[9; 31]).unwrap();
    let secret = load_or_generate_keypair(&mut keystore).unwrap();
    assert_eq!(keystore.get(MAIN_KEYPAIR_KEY).unwrap(), Some(secret.to_vec()));
}

#[test]
fn the_signature_covers_every_field_in_order() {
    let secret = iroh::SecretKey::generate();
    let sync = KeySynchronizer::with_secret(secret.to_bytes());
    let timestamp = 1_700_000_001_000_000_005;
    let message = signed(
        &sync,
        SyncOperation::Delete,
        "key",
        7,
        Some(vec![8, 9]),
        0xab,
        timestamp,
    );
    let public = secret.public();
    let time = std::time::UNIX_EPOCH + std::time::Duration::from_nanos(timestamp);
    let changed = chrono::DateTime::from_timestamp(1_700_000_000, 123_456_789).unwrap();
    let about = (
        "key".to_string(),
        7u64,
        changed,
        public,
        Vec::<u8>::new(),
        "Ed25519".to_string(),
        vec![1u8, 2, 3, 4],
    );
    let whole = (
        uuid::Uuid::from_bytes([0xab; 16]),
        SYNC_PROTOCOL_VERSION,
        time,
        public,
        2u32,
        about,
        Some(vec![8u8, 9]),
        Vec::<u8>::new(),
    );
    let bytes = postcard::to_allocvec(&whole).unwrap();
    let signature = ed25519_dalek::Signature::from_slice(&message.message_signature).unwrap();
    let key = ed25519_dalek::VerifyingKey::from_bytes(public.as_bytes()).unwrap();
    assert!(key.verify(&bytes, &signature).is_ok());
}

#[test]
fn only_a_trusted_signature_is_taken_and_only_once() {
    let sender = synchronizer();
    let mut receiver = synchronizer();
    let mut keystore = InMemoryKeystore::new();
    let first = signed(&sender, SyncOperation::Create, "k", 1, Some(vec![1]), 1, 1_000);
    let again = signed(&sender, SyncOperation::Create, "k", 9, Some(vec![2]), 1, 1_000);
    let mut forged = signed(&sender, SyncOperation::Create, "k", 1, Some(vec![1]), 2, 1_000);
    forged.key_data = Some(vec![3]);

    assert_eq!(
        receiver.screen(&first, 2_000).unwrap_err().message(),
        &format!("Untrusted peer: {}", sender.node_id().render())
    );
    receiver.add_trusted_peer(sender.node_id(), sender.node_id().bytes);
    assert!(receiver
        .screen(&forged, 2_000)
        .unwrap_err()
        .message()
        .starts_with("Signature verification failed: "));
    forged.message_signature = vec![0; 3];
    assert!(receiver
        .screen(&forged, 2_000)
        .unwrap_err()
        .message()
        .starts_with("Invalid signature: "));
    assert!(receiver.screen(&first, 2_000).unwrap());
    assert_eq!(
        receiver
            .screen(&first, 1_001 + MAX_MESSAGE_AGE)
            .unwrap_err()
            .message(),
        "Message too old"
    );
    assert_eq!(
        receiver.screen(&first, 999).unwrap_err().message(),
        "Invalid timestamp"
    );

    receiver.handle_sync_message(&mut keystore, first, 2_000).unwrap();
    assert_eq!(keystore.get("k").unwrap(), Some(vec![1]));
    assert_eq!(receiver.list_synchronized_keys(), vec!["k".to_string()]);
    assert!(!receiver.screen(&again, 3_000).unwrap());
    receiver.handle_sync_message(&mut keystore, again, 3_000).unwrap();
    assert_eq!(keystore.get("k").unwrap(), Some(vec![1]));
    let statistics = receiver.get_statistics();
    assert_eq!(statistics.messages_synced, 1);
    assert_eq!(statistics.active_peers, 1);
    assert_eq!(statistics.synchronized_keys, 1);
}

#[test]
fn keys_are_updated_deleted_and_kept_at_their_version() {
    let sender = synchronizer();
    let mut receiver = synchronizer();
    receiver.add_trusted_peer(sender.node_id(), sender.node_id().bytes);
    let mut keystore = InMemoryKeystore::new();

    let missing = signed(&sender, SyncOperation::Update, "k", 2, Some(vec![2]), 1, 10);
    assert_eq!(
        receiver
            .handle_sync_message(&mut keystore, missing, 20)
            .unwrap_err()
            .message(),
        "Key not found: k"
    );
    let create = signed(&sender, SyncOperation::Create, "k", 5, Some(vec![5]), 2, 10);
    receiver.handle_sync_message(&mut keystore, create, 20).unwrap();
    let stale = signed(&sender, SyncOperation::Update, "k", 4, Some(vec![4]), 3, 10);
    receiver.handle_sync_message(&mut keystore, stale, 20).unwrap();
    assert_eq!(keystore.get("k").unwrap(), Some(vec![5]));
    match receiver.get_key_sync_status("k") {
        Some(KeySyncStatus::Conflict(words)) => assert_eq!(words, "Local: v5, Remote: v4"),
        other => panic!("wrong status: {:?}", other),
    }
    let update = signed(&sender, SyncOperation::Update, "k", 6, Some(vec![6]), 4, 10);
    receiver.handle_sync_message(&mut keystore, update, 20).unwrap();
    assert_eq!(keystore.get("k").unwrap(), Some(vec![6]));
    let older = signed(&sender, SyncOperation::Create, "k", 6, Some(vec![7]), 5, 10);
    assert!(matches!(
        receiver.plan(&older, true).unwrap(),
        SyncPlan::Skip
    ));
    let delete = signed(&sender, SyncOperation::Delete, "k", 6, None, 6, 10);
    receiver.handle_sync_message(&mut keystore, delete, 20).unwrap();
    assert!(!keystore.has("k").unwrap());
    assert!(receiver.list_synchronized_keys().is_empty());
}

#[test]
fn keys_are_queued_for_their_peers() {
    let mut sync = synchronizer();
    let mut keystore = InMemoryKeystore::new();
    keystore.put("k", &[7; 10]).unwrap();
    assert_eq!(
        sync.sync_key(&keystore, "absent", SyncOperation::Update)
            .unwrap_err()
            .message(),
        "Key not found: absent"
    );
    sync.sync_key(&keystore, "k", SyncOperation::Update).unwrap();
    assert!(matches!(
        sync.get_key_sync_status("k"),
        Some(KeySyncStatus::Synchronizing)
    ));
    sync.force_full_sync(&keystore, &vec!["k".to_string(), "k".to_string()])
        .unwrap();
    assert!(sync
        .force_full_sync(&keystore, &vec!["absent".to_string()])
        .is_err());
    sync.update_sync_status("k", KeySyncStatus::Failed("why".to_string()));
    match sync.get_key_sync_status("k") {
        Some(KeySyncStatus::Failed(detail)) => assert_eq!(detail, "why"),
        other => panic!("wrong status: {:?}", other),
    }
    assert_eq!(sync.get_statistics().pending_messages, 0);
}

#[test]
fn the_metadata_of_a_stored_key_holds_its_hash() {
    let sync = synchronizer();
    let mut keystore = InMemoryKeystore::new();
    let data = vec![7u8; 10];
    keystore.put("k", &data).unwrap();
    let made = sync.get_key_metadata(&keystore, "k").unwrap();
    assert_eq!(made.version, 1);
    assert_eq!(made.crypto_algorithm, "Ed25519");
    assert_eq!(made.public_key_hash, blake3::hash(&data).as_bytes().to_vec());
    assert!(made.last_modified > 1_600_000_000_000_000_000);
    assert_eq!(
        sync.key_metadata_at("k", None, 5).unwrap_err().message(),
        "Key not found: k"
    );
}

#[test]
fn what_is_known_and_trusted_can_be_asked_for() {
    let mut keys = synchronizer();
    let peer = random_node();
    assert!(keys.trusted_key(&peer).is_none());
    keys.add_trusted_peer(peer, [4; 32]);
    assert_eq!(keys.trusted_key(&peer), Some([4; 32]));
    assert!(keys.known_key("absent").is_none());
}

#[test]
fn a_stored_key_pair_is_taken_as_it_is() {
    let mut keystore = InMemoryKeystore::new();
    keystore.put(MAIN_KEYPAIR_KEY, &[7; 32]).unwrap();
    assert_eq!(load_or_generate_keypair(&mut keystore).unwrap(), [7; 32]);
    assert_eq!(KeySynchronizer::new(&mut keystore).unwrap().signing_key(), &[7; 32]);
    assert_eq!(keystore.get(MAIN_KEYPAIR_KEY).unwrap(), Some(vec![7; 32]));
}

#[test]
fn a_known_key_is_synchronized_without_the_keystore() {
    let sender = synchronizer();
    let mut receiver = synchronizer();
    receiver.add_trusted_peer(sender.node_id(), sender.node_id().bytes);
    let mut keystore = InMemoryKeystore::new();
    let create = signed(&sender, SyncOperation::Create, "k", 5, Some(vec![5]), 2, 10);
    receiver.handle_sync_message(&mut keystore, create, 20).unwrap();

    let empty = InMemoryKeystore::new();
    receiver.sync_key(&empty, "k", SyncOperation::Update).unwrap();
    assert!(matches!(
        receiver.get_key_sync_status("k"),
        Some(KeySyncStatus::Synchronizing)
    ));
    let error = receiver.sync_key(&empty, "other", SyncOperation::Update).unwrap_err();
    assert_eq!(error.message(), "Key not found: other");
    assert!(receiver.get_key_sync_status("other").is_none());
    let error = receiver
        .force_full_sync(&empty, &vec!["k".to_string(), "other".to_string()])
        .unwrap_err();
    assert_eq!(error.message(), "Key not found: other");
    receiver.force_full_sync(&empty, &vec!["k".to_string()]).unwrap();
}

#[test]
fn a_message_of_any_date_can_be_signed() {
    let sync = synchronizer();
    for last_modified in [i64::MIN, -1, 0, i64::MAX] {
        let mut known = metadata("k", u64::MAX, sync.node_id());
        known.last_modified = last_modified;
        let message = sync
            .create_sync_message(SyncOperation::MetadataSync, known, None)
            .unwrap();
        assert_eq!(message.message_signature.len(), 64);
    }
}
