use guardian_db::hash::ContentHash;
use guardian_db::p2p::events::EventPubSub;
use guardian_db::p2p::network::backend::batch_processor::{
    automatic_step, combine_adds, distribute_add, distribute_pins, extract_batch, group_by_topic,
    pin_hashes, AddOptions, AutomaticStep, BatchConfig, BatchOperation, BatchProcessor,
    BatchStats, GetOptions, Immediate, IndividualStep, OperationData, OperationHistory, OperationResult, OperationType,
    PinOptions, Tick, TimingEntry, TypedQueues,
};
use guardian_db::p2p::network::backend::blobs::{tag_of, BlobStore, DownloadProgress, FetchAction};
use guardian_db::p2p::network::backend::connection_pool::{
    check_confirmation, check_latency, check_response, clocks_agree, handshake_message,
    response_length, CircuitBreaker, CircuitState, ConnectionEvent, Handshake, HandshakeAction,
    HandshakeEvent, OptimizedConnectionPool, PoolConfig, PoolStep,
};
use guardian_db::p2p::network::backend::docs::{AuthorStep, ShareMode, WillowDocs};
use guardian_db::p2p::network::backend::gossip::{
    check_mesh, topic_id_from_str, EpidemicPubSub, GossipAction, GossipEvent, IrohTopic, MeshWait,
    TopicStep, MAX_RETRIES,
};
use guardian_db::p2p::network::backend::networking_metrics::{
    NetworkingMetricsCollector, MAX_SAMPLES,
};
use guardian_db::p2p::network::backend::optimized_cache::{
    CacheConfig, OptimizedCache, PutOutcome,
};
use guardian_db::p2p::network::types::AddResponse;
use guardian_db::p2p::node::NodeId;

fn node(byte: u8) -> NodeId {
    NodeId { bytes: [byte; 32] }
}

fn random_node() -> NodeId {
    NodeId {
        bytes: *iroh::SecretKey::generate().public().as_bytes(),
    }
}

fn adding(data: &[u8], priority: u8, now: u64) -> BatchOperation {
    BatchProcessor::operation(
        OperationType::Add,
        OperationData::AddData {
            data: data.to_vec(),
            options: AddOptions::default(),
        },
        priority,
        now,
    )
}

fn publishing(topic: &str, byte: u8) -> BatchOperation {
    BatchProcessor::operation(
        OperationType::PubSubPublish,
        OperationData::PubSubData {
            topic: topic.to_string(),
            data: vec![byte],
        },
        5,
        0,
    )
}

fn first_byte(op: &BatchOperation) -> u8 {
    match &op.data {
        OperationData::AddData { data, .. } => data[0],
        OperationData::PubSubData { data, .. } => data[0],
        _ => 0,
    }
}

#[test]
fn a_batch_is_taken_by_priority_and_arrival() {
    let mut queue = vec![
        adding(&[1], 3, 0),
        adding(&[2], 9, 0),
        adding(&[3], 3, 0),
        adding(&[4], 9, 0),
    ];
    let batch = extract_batch(&mut queue, 3);
    let order: Vec<u8> = batch.iter().map(first_byte).collect();
    assert_eq!(order, vec![2, 4, 1]);
    assert!(queue.is_empty());
}

#[test]
fn operations_wait_until_a_batch_is_due() {
    let config = BatchConfig {
        max_batch_size: 8,
        ..BatchConfig::default()
    };
    let mut processor = BatchProcessor::new(config);
    assert!(matches!(
        processor.add_batch_operation(adding(&[1], 5, 0)),
        Immediate::Nothing
    ));
    assert!(matches!(
        processor.add_batch_operation(adding(&[2], 5, 0)),
        Immediate::Ready
    ));
    let due = processor.typed_queues.take_ready_batches(&config);
    assert_eq!(due.add.len(), 2);
    assert!(due.get.is_empty());

    let plain = BatchConfig {
        max_batch_size: 2,
        enable_smart_batching: false,
        ..BatchConfig::default()
    };
    let mut processor = BatchProcessor::new(plain);
    processor.add_batch_operation(adding(&[1], 5, 0));
    assert!(matches!(
        processor.add_batch_operation(adding(&[2], 5, 0)),
        Immediate::Pending
    ));
    processor.add_batch_operation(adding(&[3], 5, 0));
    let batch = processor.take_pending_batch();
    assert_eq!(batch.iter().map(first_byte).collect::<Vec<u8>>(), vec![1, 2]);
    assert_eq!(processor.pending_operations.len(), 1);
}

#[test]
fn old_operations_are_processed_automatically() {
    let config = BatchConfig::default();
    let mut queues = TypedQueues::new();
    queues.add_to_typed_queue(adding(&[1], 5, 0));
    queues.add_to_typed_queue(publishing("t", 1));
    let limit = config.max_batch_wait_ms * 2 * 1_000_000;
    assert!(!queues.should_process(&config, limit));
    assert!(queues.should_process(&config, limit + 1));
    let due = queues.take_automatic_batches(&config, limit + 1);
    assert_eq!(due.add.len(), 1);
    assert_eq!(due.pubsub.len(), 1);
    assert!(queues.add_queue.is_empty());
    assert!(queues.pubsub_queue.is_empty());
}

#[test]
fn contents_are_added_together_and_answered_apart() {
    let batch = vec![adding(b"abc", 5, 0), adding(b"de", 5, 0)];
    assert!(combine_adds(&batch, 5).is_none());
    let combined = combine_adds(&batch, 4).unwrap();
    assert_eq!(combined.data, b"abcde".to_vec());
    assert_eq!(combined.ranges[1].1, 3);
    assert_eq!(combined.ranges[1].2, 5);
    let whole = AddResponse::with_name("h".to_string(), "n".to_string(), 5);
    let answers = distribute_add(&whole, &combined.ranges);
    assert_eq!(answers[1].0, batch[1].id);
    assert_eq!(answers[1].1.hash, "h_3");
    assert_eq!(answers[1].1.name, format!("n_{}", batch[1].id));
    assert_eq!(answers[1].1.size, "2");
}

#[test]
fn pins_are_answered_by_place() {
    let pin = BatchProcessor::operation(
        OperationType::Pin,
        OperationData::PinHash {
            hash: "h".to_string(),
            options: PinOptions::default(),
        },
        5,
        0,
    );
    let batch = vec![pin, adding(b"x", 5, 0)];
    assert_eq!(pin_hashes(&batch), vec!["h".to_string()]);
    assert_eq!(distribute_pins(&batch, &vec![true]), vec![true, false]);
}

#[test]
fn messages_are_grouped_by_topic() {
    let groups = group_by_topic(vec![
        publishing("b", 1),
        adding(b"x", 5, 0),
        publishing("a", 2),
        publishing("b", 3),
    ]);
    assert_eq!(groups.len(), 2);
    let b: Vec<u8> = groups.get("b").unwrap().iter().map(first_byte).collect();
    assert_eq!(b, vec![1, 3]);
}

#[test]
fn the_automatic_processor_knows_some_answers() {
    let unpin = automatic_step(OperationData::UnpinHash {
        hash: "h".to_string(),
    });
    match unpin {
        AutomaticStep::Answer(Err(e)) => assert_eq!(e.message(), "Operation not implemented"),
        other => panic!("wrong: {:?}", other),
    }
    let publish = automatic_step(OperationData::PubSubData {
        topic: "t".to_string(),
        data: vec![],
    });
    assert!(matches!(
        publish,
        AutomaticStep::Answer(Ok(OperationResult::PubSubResult(false)))
    ));
}

#[test]
fn batches_are_counted() {
    let mut stats = BatchStats::new();
    stats.typed_batch(3);
    stats.automatic_batch(2);
    stats.automatic_pending_batch(4);
    assert_eq!(stats.batched_operations, 5);
    assert_eq!(stats.total_operations, 6);
    assert_eq!(stats.individual_operations, 4);
    let mut history = OperationHistory::new();
    assert!(history.avg_data_size(OperationType::Add).is_none());
    let timing = TimingEntry {
        operation_type: OperationType::Add,
        timestamp: 0,
        duration_ms: 1,
        data_size: 100,
    };
    history.record_operation_timing(timing);
    assert_eq!(history.avg_data_size(OperationType::Add), Some(50));
    history.record_operation_timing(timing);
    assert_eq!(history.avg_data_size(OperationType::Add), Some(75));
}

#[test]
fn a_breaker_opens_after_failures_and_recovers() {
    let mut breaker = CircuitBreaker::default();
    let threshold = breaker.failure_threshold;
    let mut failures = 0;
    while failures < threshold {
        assert!(breaker.check(0));
        breaker.record_failure(0);
        failures += 1;
    }
    assert_eq!(breaker.state, CircuitState::Open);
    assert!(!breaker.check(0));
    let later = breaker.timeout_ms * 1_000_000 + 1;
    assert!(breaker.check(later + 1_000_000));
    assert_eq!(breaker.state, CircuitState::HalfOpen);
    breaker.record_success();
    breaker.record_success();
    breaker.record_success();
    assert_eq!(breaker.state, CircuitState::Closed);
}

#[test]
fn a_greeting_is_answered_with_itself() {
    let peer = random_node();
    let greeting = handshake_message(&peer, 1_234);
    assert_eq!(greeting.len(), 57);
    assert_eq!(&greeting[..2], &[0, 15]);
    assert_eq!(&greeting[2..17], b"guardian-db/1.0");
    assert_eq!(check_response(&greeting[2..], &peer).unwrap(), 1_234);
    assert_eq!(
        check_response(&greeting[2..56], &peer).unwrap_err().message(),
        "Response too small"
    );
    assert_eq!(
        check_response(&[0; 60], &peer).unwrap_err().message(),
        "Incompatible protocol version"
    );
    let other = random_node();
    assert_eq!(
        check_response(&greeting[2..], &other).unwrap_err().message(),
        &format!(
            "NodeId mismatch: expected {}, received {}",
            other.render(),
            peer.render()
        )
    );
    assert_eq!(response_length(&[4, 0]).unwrap(), 1_024);
    assert!(response_length(&[4, 1]).is_err());
    assert!(response_length(&[0, 0]).is_err());
    assert!(clocks_agree(1_000, 1_300));
    assert!(!clocks_agree(1_000, 1_301));
    assert!(check_confirmation(b"HANDSHAKE_OK").is_ok());
    assert!(check_confirmation(b"NO").is_err());
    assert_eq!(check_latency(Ok(5_000)).unwrap(), 5_000);
    assert_eq!(
        check_latency(Ok(5_001)).unwrap_err().message(),
        "Unacceptable latency: 5001.00ms"
    );
    assert_eq!(
        check_latency(Err("no route".to_string())).unwrap_err().message(),
        "Connection failure: no route"
    );
}

fn words_of(action: HandshakeAction) -> String {
    match action {
        HandshakeAction::Failed(e) => e.message().clone(),
        other => panic!("not failed: {:?}", other),
    }
}

fn greeted(peer: NodeId) -> Handshake {
    let (mut handshake, action) = Handshake::start(peer, true);
    assert!(matches!(action, HandshakeAction::Connect { wait_ms: 5_000 }));
    match handshake.step(HandshakeEvent::Connected, 1_000) {
        HandshakeAction::Write(message) => assert_eq!(message, handshake_message(&peer, 1_000)),
        other => panic!("not greeted: {:?}", other),
    }
    assert!(matches!(
        handshake.step(HandshakeEvent::Written, 1_000),
        HandshakeAction::Read { length: 2, wait_ms: 3_000 }
    ));
    handshake
}

#[test]
fn a_handshake_runs_to_its_end() {
    let peer = random_node();
    let mut handshake = greeted(peer);
    assert!(matches!(
        handshake.step(HandshakeEvent::Read(vec![0, 55]), 1_001),
        HandshakeAction::Read { length: 55, .. }
    ));
    let answer = handshake_message(&peer, 5_000)[2..].to_vec();
    match handshake.step(HandshakeEvent::Read(answer), 1_002) {
        HandshakeAction::Confirm { message, agree } => {
            assert_eq!(message, b"HANDSHAKE_OK".to_vec());
            assert!(!agree);
        }
        other => panic!("not confirmed: {:?}", other),
    }
    assert!(matches!(
        handshake.step(HandshakeEvent::Written, 1_003),
        HandshakeAction::Read { length: 12, wait_ms: 2_000 }
    ));
    assert!(matches!(
        handshake.step(HandshakeEvent::Read(b"HANDSHAKE_OK".to_vec()), 1_004),
        HandshakeAction::Done
    ));
    assert!(matches!(
        handshake.step(HandshakeEvent::Written, 1_005),
        HandshakeAction::Ignore
    ));
}

#[test]
fn a_handshake_fails_in_words() {
    let peer = random_node();
    let (_, action) = Handshake::start(peer, false);
    assert_eq!(words_of(action), "No direct address available for handshake");
    let (mut handshake, _) = Handshake::start(peer, true);
    assert_eq!(
        words_of(handshake.step(HandshakeEvent::ConnectTimedOut, 0)),
        "TCP connection timeout"
    );
    let (mut handshake, _) = Handshake::start(peer, true);
    assert_eq!(
        words_of(handshake.step(HandshakeEvent::ConnectFailed("refused".to_string()), 0)),
        "TCP connection failure: refused"
    );
    let mut handshake = greeted(peer);
    assert_eq!(
        words_of(handshake.step(HandshakeEvent::ReadTimedOut("Elapsed(())".to_string()), 0)),
        "Timeout reading response: Elapsed(())"
    );
    let mut handshake = greeted(peer);
    assert_eq!(
        words_of(handshake.step(HandshakeEvent::Read(vec![0, 0]), 0)),
        "Invalid response size"
    );
    let mut handshake = greeted(peer);
    handshake.step(HandshakeEvent::Read(vec![0, 55]), 0);
    assert_eq!(
        words_of(handshake.step(HandshakeEvent::Read(vec![0; 55]), 0)),
        "Incompatible protocol version"
    );
}

#[test]
fn the_health_of_a_peer_is_told_once_it_recovers() {
    let mut pool = OptimizedConnectionPool::new(PoolConfig::default());
    assert!(pool.note_health(node(1), false, 0).is_none());
    assert!(matches!(
        pool.note_health(node(1), true, 1),
        Some(ConnectionEvent::Degraded { .. })
    ));
    assert!(matches!(
        pool.note_health(node(1), false, 2),
        Some(ConnectionEvent::Recovered { .. })
    ));
    assert!(pool.note_health(node(1), false, 3).is_none());
}

#[test]
fn the_automatic_processor_looks_at_the_queues() {
    let mut processor = BatchProcessor::new(BatchConfig::default());
    assert!(matches!(processor.automatic_tick(0), Tick::Nothing));
    processor.add_batch_operation(adding(&[1], 5, 0));
    assert!(matches!(processor.automatic_tick(100_000_001), Tick::Typed));
    let plain = BatchConfig {
        enable_smart_batching: false,
        ..BatchConfig::default()
    };
    let mut processor = BatchProcessor::new(plain);
    assert!(matches!(processor.automatic_tick(0), Tick::Nothing));
    processor.add_batch_operation(adding(&[1], 5, 0));
    assert!(matches!(processor.automatic_tick(0), Tick::Pending));
}

#[test]
fn a_released_connection_is_used_again() {
    let mut pool = OptimizedConnectionPool::new(PoolConfig::default());
    let peer = node(4);
    let id = match pool.get_connection(&peer, 0).unwrap() {
        PoolStep::Establish(id) => id,
        other => panic!("wrong: {:?}", other),
    };
    let events = pool.established(peer, &id, "1.2.3.4:5", 20, 0);
    assert!(matches!(
        events[events.len() - 1],
        ConnectionEvent::Connected { latency_ms: 20, .. }
    ));
    assert_eq!(pool.get_stats().connections_created, 1);
    pool.release_connection(&peer, &id, 1);
    match pool.get_connection(&peer, 2).unwrap() {
        PoolStep::Reuse(again) => assert_eq!(again, id),
        other => panic!("wrong: {:?}", other),
    }
    assert_eq!(pool.get_stats().connections_reused, 1);
}

#[test]
fn a_peer_that_keeps_failing_is_left_alone() {
    let config = PoolConfig::default();
    let mut pool = OptimizedConnectionPool::new(config);
    let peer = node(4);
    let mut failures = 0;
    while failures < config.failure_threshold {
        pool.connection_failed(&peer, 0);
        failures += 1;
    }
    assert_eq!(
        pool.get_connection(&peer, 0).unwrap_err().message(),
        &format!("Circuit breaker open for node {}", "04".repeat(32))
    );
    let (_, error) = pool.connection_timed_out(&node(5), 0);
    assert!(error.message().starts_with("Timeout connecting to node "));
}

#[test]
fn what_is_put_in_the_cache_is_got_back() {
    let config = CacheConfig {
        max_data_entries: 2,
        compression_threshold: 1_000,
        ..CacheConfig::default()
    };
    let mut cache = OptimizedCache::new(config);
    assert!(matches!(cache.put("small", vec![7; 10], 1), PutOutcome::Plain));
    assert_eq!(cache.get("small", 2), Some(vec![7; 10]));
    match cache.put("large", vec![9; 5_000], 3) {
        PutOutcome::Compressed(size) => assert!(size < 5_000),
        PutOutcome::Plain => panic!("not compressed"),
    }
    assert_eq!(cache.get("large", 4), Some(vec![9; 5_000]));
    assert_eq!(cache.get("missing", 5), None);
    let stats = cache.get_stats();
    assert_eq!(stats.data_cache_hits, 1);
    assert_eq!(stats.compressed_cache_hits, 1);
    assert_eq!(stats.compressions_count, 1);
}

#[test]
fn content_is_stored_as_compressing_it_came_out() {
    let config = CacheConfig {
        compression_threshold: 100,
        ..CacheConfig::default()
    };
    let mut cache = OptimizedCache::new(config);
    let frame = zstd::bulk::compress(&[9; 100], 6).unwrap();
    let size = frame.len();
    match cache.put("at the threshold", vec![9; 100], 0) {
        PutOutcome::Compressed(stored) => assert_eq!(stored, size),
        PutOutcome::Plain => panic!("not compressed"),
    }
    assert!(matches!(
        cache.put("below the threshold", vec![9; 99], 0),
        PutOutcome::Plain
    ));
    match cache.store("large", vec![9; 100], Ok(frame.clone()), 1) {
        PutOutcome::Compressed(stored) => assert_eq!(stored, size),
        PutOutcome::Plain => panic!("not compressed"),
    }
    assert_eq!(cache.get("large", 2), Some(vec![9; 100]));
    assert_eq!(cache.get_stats().compressed_cache_hits, 1);
    assert!(matches!(
        cache.store("small", vec![9; 99], Ok(frame), 3),
        PutOutcome::Plain
    ));
    assert!(matches!(
        cache.store("failed", vec![8; 200], Err("no memory".to_string()), 4),
        PutOutcome::Plain
    ));
    assert_eq!(cache.get("small", 5), Some(vec![9; 99]));
    assert_eq!(cache.get("failed", 6), Some(vec![8; 200]));
    assert_eq!(cache.get_stats().data_cache_hits, 2);
    assert_eq!(cache.get_stats().compressions_count, 2);
}

#[test]
fn the_least_recently_used_content_gives_way() {
    let config = CacheConfig {
        max_data_entries: 2,
        ..CacheConfig::default()
    };
    let mut cache = OptimizedCache::new(config);
    cache.put("a", vec![1], 1);
    cache.put("b", vec![2], 2);
    assert!(cache.get("a", 3).is_some());
    cache.put("c", vec![3], 4);
    assert!(cache.get("b", 5).is_none());
    assert!(cache.get("a", 6).is_some());
    let names: Vec<String> = cache.eviction_candidates().into_iter().map(|c| c.cid).collect();
    assert_eq!(names, vec!["a".to_string(), "c".to_string()]);
    cache.evict(&vec!["a".to_string()]);
    assert!(cache.get("a", 7).is_none());
    cache.clear();
    assert!(cache.eviction_candidates().is_empty());
}

#[test]
fn samples_are_bounded() {
    let mut metrics = NetworkingMetricsCollector::new();
    let mut i: u64 = 0;
    while i < 130 {
        metrics.record_add_operation(i);
        i += 1;
    }
    assert_eq!(metrics.samples.add_operation_times.len(), MAX_SAMPLES);
    assert_eq!(metrics.samples.add_operation_times[0], 30);
    assert_eq!(metrics.counters.add_operations, 130);
    metrics.record_discovery(1, true);
    metrics.record_discovery(1, false);
    assert_eq!(metrics.counters.discovery_attempts, 2);
    assert_eq!(metrics.counters.successful_discoveries, 1);
    assert_eq!(metrics.get_metrics().counters.discovery_attempts, 0);
    metrics.update_computed_metrics_at(77);
    assert_eq!(metrics.get_metrics().counters.discovery_attempts, 2);
    assert_eq!(metrics.get_metrics().last_updated, 77);
    metrics.record_peer_connected(Some(5));
    metrics.record_peer_disconnected();
    metrics.record_message_sent();
    metrics.record_message_received(None);
    metrics.record_cat_operation(9);
    assert_eq!(metrics.get_metrics().counters.connections_total, 0);
    metrics.update_computed_metrics();
    let shown = metrics.get_metrics();
    assert_eq!(shown.counters, metrics.counters);
    assert_eq!(shown.counters.connections_total, 1);
    assert_eq!(shown.counters.disconnections_total, 1);
    assert_eq!(shown.counters.messages_sent, 1);
    assert_eq!(shown.counters.messages_received, 1);
    assert_eq!(shown.counters.cat_operations, 1);
    assert_eq!(metrics.samples.peer_latencies, vec![5]);
    assert!(metrics.samples.message_propagation.is_empty());
    assert!(shown.last_updated > 1_600_000_000);
}

#[test]
fn documents_are_tagged_and_downloaded() {
    let hash = ContentHash { bytes: [0xcd; 32] };
    assert_eq!(tag_of(&hash), format!("doc_{}", "cd".repeat(32)));
    let alone = BlobStore::new();
    assert!(!alone.has_p2p_support());
    match alone.found_locally(Err("missing".to_string()), &vec![node(1)]) {
        FetchAction::Failed(e) => {
            assert_eq!(e.message(), "Endpoint not available for P2P blob download")
        }
        other => panic!("wrong: {:?}", other),
    }
    let store = BlobStore::new_with_endpoint();
    assert!(matches!(
        store.found_locally(Ok(vec![1]), &vec![]),
        FetchAction::Done { .. }
    ));
    assert!(matches!(
        store.found_locally(Err("missing".to_string()), &vec![node(1)]),
        FetchAction::Download { .. }
    ));
    assert_eq!(
        store.download_from_peers(&vec![]).unwrap_err().message(),
        "No provider given for P2P download"
    );
    assert_eq!(
        BlobStore::progress(DownloadProgress::DownloadError)
            .unwrap_err()
            .message(),
        "P2P download failed"
    );
    assert!(matches!(BlobStore::downloaded(Ok(())), FetchAction::Read));
    match BlobStore::found_after_download(&hash, Ok(vec![2])) {
        FetchAction::Tag { tag, data } => {
            assert_eq!(tag, tag_of(&hash));
            assert_eq!(data, vec![2]);
        }
        other => panic!("wrong: {:?}", other),
    }
}

#[test]
fn an_author_is_made_once() {
    let mut docs = WillowDocs::new();
    assert!(matches!(docs.get_or_init_author(), AuthorStep::AskDefault));
    assert!(matches!(docs.found_default(None), AuthorStep::Create));
    assert!(matches!(
        docs.created(Ok([3; 32])).unwrap(),
        AuthorStep::SetDefault(_)
    ));
    match docs.get_or_init_author() {
        AuthorStep::Done(author) => assert_eq!(author, [3; 32]),
        other => panic!("wrong: {:?}", other),
    }
}

#[test]
fn a_topic_is_subscribed_once_and_joined_again() {
    let mut pubsub = EpidemicPubSub::new();
    match pubsub.get_or_create_topic_with_peers("t", &vec![node(1)]) {
        TopicStep::Subscribe { topic_id, .. } => assert_eq!(topic_id, topic_id_from_str("t")),
        other => panic!("wrong: {:?}", other),
    }
    assert_eq!(
        pubsub.publish_to_topic("t").unwrap_err().message(),
        "Topic t not found - subscribe first"
    );
    pubsub.subscribed("t", vec![node(1)]);
    assert!(pubsub.publish_to_topic("t").is_ok());
    assert!(matches!(
        pubsub.get_or_create_topic_with_peers("t", &vec![]),
        TopicStep::Ready
    ));
    assert!(matches!(
        pubsub.get_or_create_topic_with_peers("t", &vec![node(2)]),
        TopicStep::Join { .. }
    ));
    pubsub.handle_event("t", GossipEvent::NeighborUp(node(3)));
    assert_eq!(pubsub.get_topic("t").unwrap().list_peers().len(), 1);
}

#[test]
fn neighbors_come_and_go() {
    let mut topic = IrohTopic::new("t", vec![]);
    assert_eq!(topic.topic(), "t");
    assert!(matches!(
        topic.handle_event(GossipEvent::NeighborUp(node(1))),
        GossipAction::Announce(EventPubSub::Join { .. })
    ));
    assert_eq!(topic.list_peers().len(), 1);
    assert!(matches!(
        topic.handle_event(GossipEvent::NeighborDown(node(1))),
        GossipAction::Announce(EventPubSub::Leave { .. })
    ));
    assert!(topic.list_peers().is_empty());
    assert!(matches!(
        topic.handle_event(GossipEvent::Received(vec![1])),
        GossipAction::Deliver(_)
    ));
    assert!(matches!(
        check_mesh(&vec![node(1)], &vec![], 0),
        MeshWait::Retry(1)
    ));
    assert!(matches!(
        check_mesh(&vec![node(1)], &vec![], MAX_RETRIES - 1),
        MeshWait::TimedOut
    ));
    assert!(matches!(
        check_mesh(&vec![node(1)], &vec![node(1), node(2)], 3),
        MeshWait::Formed
    ));
}

#[test]
fn an_operation_by_itself_asks_the_backend() {
    let hash = || "ab".to_string();
    let add = OperationData::AddData { data: vec![1], options: AddOptions::default() };
    assert!(
        matches!(BatchProcessor::individual_step(add), IndividualStep::Add(data) if data == [1])
    );
    let get = OperationData::GetHash { hash: hash(), options: GetOptions::default() };
    assert!(matches!(BatchProcessor::individual_step(get), IndividualStep::Get(h) if h == "ab"));
    let pin = OperationData::PinHash { hash: hash(), options: PinOptions::default() };
    assert!(matches!(BatchProcessor::individual_step(pin), IndividualStep::Pin(h) if h == "ab"));
    let unpin = OperationData::UnpinHash { hash: hash() };
    assert!(
        matches!(BatchProcessor::individual_step(unpin), IndividualStep::Unpin(h) if h == "ab")
    );
    let publish = OperationData::PubSubData { topic: "news".to_string(), data: vec![2] };
    match BatchProcessor::individual_step(publish) {
        IndividualStep::Publish { topic, data } => {
            assert_eq!(topic, "news");
            assert_eq!(data, vec![2]);
        }
        _ => panic!("a message was not published"),
    }
}

#[test]
fn what_the_backend_answers_is_passed_on() {
    let failed = || "lost".to_string();
    let response = AddResponse::new("ab".to_string(), 3);
    match BatchProcessor::add_operation(Ok(response)) {
        Ok(OperationResult::AddResult(r)) => assert_eq!(r.hash, "ab"),
        _ => panic!("content was not added"),
    }
    let e = BatchProcessor::add_operation(Err(failed())).err().unwrap();
    assert_eq!(e.message(), "Error in IrohBackend.add(): lost");
    match BatchProcessor::get_operation("ab", Ok(vec![7])) {
        Ok(OperationResult::GetResult(data)) => assert_eq!(data, vec![7]),
        _ => panic!("content was not got"),
    }
    let e = BatchProcessor::get_operation("ab", Err(failed())).err().unwrap();
    assert_eq!(e.message(), "Error in IrohBackend.cat(ab): lost");
    let e = BatchProcessor::add_operation_static(Err(failed())).err().unwrap();
    assert_eq!(e.message(), "Error in add: lost");
    let response = AddResponse::new("ab".to_string(), 3);
    assert!(BatchProcessor::add_operation_static(Ok(response)).is_ok());
    let e = BatchProcessor::get_operation_static("ab", Err(failed())).err().unwrap();
    assert_eq!(e.message(), "Error in cat for ab: lost");
    assert!(BatchProcessor::get_operation_static("ab", Ok(vec![])).is_ok());
    assert!(matches!(BatchProcessor::pin_operation(Ok(())), OperationResult::PinResult(true)));
    assert!(matches!(
        BatchProcessor::pin_operation(Err(failed())),
        OperationResult::PinResult(false)
    ));
    assert!(matches!(
        BatchProcessor::unpin_operation(Err(failed())),
        OperationResult::UnpinResult(false)
    ));
    assert!(matches!(
        BatchProcessor::pubsub_operation(Ok(())),
        OperationResult::PubSubResult(true)
    ));
}

#[test]
fn a_document_is_added_listed_and_deleted_by_its_tag() {
    let hash = ContentHash { bytes: [0xab; 32] };
    let (added, tag) = BlobStore::add_document(Ok(hash)).unwrap();
    assert_eq!(added.bytes, hash.bytes);
    assert_eq!(tag, format!("doc_{}", "ab".repeat(32)));
    assert_eq!(BlobStore::document_tagged(added, Ok(())).unwrap().bytes, hash.bytes);
    assert_eq!(BlobStore::delete_document(&hash), tag);
    assert!(BlobStore::document_untagged(Ok(())).is_ok());

    let other = ContentHash { bytes: [1; 32] };
    let listed = vec![Ok(hash), Err("torn".to_string()), Ok(other)];
    let documents = BlobStore::list_documents(Ok(listed)).unwrap();
    let bytes: Vec<(u8, u64)> = documents.iter().map(|d| (d.0.bytes[0], d.1)).collect();
    assert_eq!(bytes, vec![(0xab, 0), (1, 0)]);

    assert_eq!(BlobStore::get_document(Ok(vec![4])).unwrap(), vec![4]);
    assert!(BlobStore::has_document(Ok(true)));
    assert!(!BlobStore::has_document(Ok(false)));
    assert!(!BlobStore::has_document(Err("torn".to_string())));
    assert_eq!(BlobStore::gc(Ok(listed_tags())).unwrap(), 0);
}

fn listed_tags() -> Vec<u8> {
    vec![1, 2]
}

#[test]
fn a_failing_store_of_documents_is_told_of_in_words() {
    let torn = || "torn".to_string();
    let hash = ContentHash { bytes: [1; 32] };
    let words = |e: guardian_db::error::GuardianError| e.message().clone();
    assert_eq!(
        words(BlobStore::add_document(Err(torn())).err().unwrap()),
        "Error adding bytes to the blob store: torn"
    );
    assert_eq!(
        words(BlobStore::document_tagged(hash, Err(torn())).err().unwrap()),
        "Error creating permanent tag: torn"
    );
    assert_eq!(
        words(BlobStore::get_document(Err(torn())).err().unwrap()),
        "Error fetching blob: torn"
    );
    assert_eq!(
        words(BlobStore::document_untagged(Err(torn())).err().unwrap()),
        "Error deleting tag: torn"
    );
    assert_eq!(
        words(BlobStore::list_documents(Err(torn())).err().unwrap()),
        "Error getting tags: torn"
    );
    assert_eq!(
        words(BlobStore::gc::<u8>(Err(torn())).err().unwrap()),
        "Error getting tags for GC: torn"
    );
}

#[test]
fn a_shared_document_store_answers_or_is_told_of_in_words() {
    let torn = || "torn".to_string();
    let words = |e: guardian_db::error::GuardianError| e.message().clone();
    assert_eq!(WillowDocs::share_mode(true), ShareMode::Write);
    assert_eq!(WillowDocs::share_mode(false), ShareMode::Read);
    assert_eq!(WillowDocs::create_doc(Ok(3)).unwrap(), 3);
    assert_eq!(
        words(WillowDocs::create_doc::<u8>(Err(torn())).err().unwrap()),
        "Failed to create document: torn"
    );
    assert_eq!(
        words(WillowDocs::share_doc(Err(torn())).err().unwrap()),
        "Failed to share document via ticket: torn"
    );
    assert_eq!(
        words(WillowDocs::import_doc::<u8>(Err(torn())).err().unwrap()),
        "Failed to import document from ticket: torn"
    );
    assert_eq!(WillowDocs::open_doc::<u8>(Ok(None)).unwrap(), None);
    assert_eq!(
        words(WillowDocs::open_doc::<u8>(Err(torn())).err().unwrap()),
        "Failed to open document: torn"
    );
    assert_eq!(
        words(WillowDocs::close_doc(Err(torn())).err().unwrap()),
        "Failed to close document: torn"
    );
    assert_eq!(
        words(WillowDocs::drop_doc(Err(torn())).err().unwrap()),
        "Failed to drop document: torn"
    );
    assert_eq!(
        words(WillowDocs::set_bytes(Err(torn())).err().unwrap()),
        "Failed to set bytes: torn"
    );
    assert_eq!(WillowDocs::del(Ok(2)).unwrap(), 2);
    assert_eq!(
        words(WillowDocs::del(Err(torn())).err().unwrap()),
        "Failed to delete: torn"
    );
    assert_eq!(WillowDocs::get_one(Ok(Some(5))).unwrap(), Some(5));
    assert_eq!(
        words(WillowDocs::get_one::<u8>(Err(torn())).err().unwrap()),
        "Failed to get entry: torn"
    );
    let found = vec![Ok(1), Err(torn()), Ok(2)];
    assert_eq!(WillowDocs::get_many(Ok(found)).unwrap(), vec![1, 2]);
    assert_eq!(
        words(WillowDocs::get_many::<u8>(Err(torn())).err().unwrap()),
        "Failed to get entries: torn"
    );
    let docs = WillowDocs::new();
    assert_eq!(docs.default_author_id(Ok([2; 32])).unwrap(), [2; 32]);
    assert_eq!(
        words(docs.default_author_id(Err(torn())).err().unwrap()),
        "No default author configured: torn"
    );
}

#[test]
fn a_pool_tells_its_peers_and_its_room() {
    let mut pool = OptimizedConnectionPool::new(PoolConfig::default());
    let peer = node(9);
    assert!(pool.has_room(&peer));
    assert!(pool.pooled_peers().is_empty());
    assert!(pool.pooled_connections(&peer).is_empty());
    pool.established(peer, "c1", "127.0.0.1:1", 5, 0);
    pool.release_connection(&peer, "c1", 1);
    assert_eq!(pool.pooled_peers().len(), 1);
    let kept = pool.pooled_connections(&peer);
    assert_eq!(kept.len(), 1);
    assert_eq!(kept[0].info.connection_id, "c1");
    assert_eq!(kept[0].info.peer_address, "127.0.0.1:1");
}
