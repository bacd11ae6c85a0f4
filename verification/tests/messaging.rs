use guardian_db::p2p::events::{new_event_message, EventPubSub};
use guardian_db::p2p::messaging::direct_channel::{
    BridgeAction, BridgeEvent, ConnectStep, ConnectionStatus, ConsumerAction, DirectChannel,
    DirectChannelEvent, EstablishAction, EstablishEvent, Establishing, Incoming, IrohBridge,
    MessageType, Reception, SubscribeStep, BEACON_PAUSE, BEACON_TIMEOUT, DISCOVERY_PAUSE,
};
use guardian_db::p2p::messaging::one_on_one_channel::{channel_id_of, Channels};
use guardian_db::p2p::messaging::{
    CoreApiPubSub, PsTopic, CONNECTION_TIMEOUT, HEARTBEAT_INTERVAL, MAX_MESSAGE_SIZE,
};
use guardian_db::p2p::node::NodeId;

fn node(byte: u8) -> NodeId {
    NodeId { bytes: [byte; 32] }
}

fn bytes_of(peers: &Vec<NodeId>) -> Vec<u8> {
    peers.iter().map(|p| p.bytes[0]).collect()
}

#[test]
fn topic_id_is_deterministic_for_same_name() {
    let a = IrohBridge::topic_id_from_str("shared-kv");
    let b = IrohBridge::topic_id_from_str("shared-kv");
    assert_eq!(a, b);
}

#[test]
fn topic_id_differs_for_different_names() {
    let a = IrohBridge::topic_id_from_str("topic-a");
    let b = IrohBridge::topic_id_from_str("topic-b");
    assert_ne!(a, b);
}

#[test]
fn a_topic_id_is_the_digest_of_its_name() {
    assert_eq!(
        &IrohBridge::topic_id_from_str("shared-kv"),
        blake3::hash(b"shared-kv").as_bytes()
    );
}

#[test]
fn both_ends_compute_one_channel_topic() {
    let a = DirectChannel::new(node(1));
    let b = DirectChannel::new(node(2));
    assert_eq!(a.get_channel_topic(node(2)), b.get_channel_topic(node(1)));
    assert_ne!(a.get_channel_topic(node(2)), a.get_channel_topic(node(3)));
    assert_ne!(a.get_channel_topic(node(3)), b.get_channel_topic(node(3)));
}

#[test]
fn a_channel_is_started_once() {
    let mut channel = DirectChannel::new(node(1));
    assert!(channel.start().unwrap());
    assert!(!channel.start().unwrap());
    channel.stop();
    assert_eq!(
        channel.start().unwrap_err().message(),
        "Event receiver already taken"
    );
}

#[test]
fn a_channel_is_connected_by_a_greeting() {
    let mut a = DirectChannel::new(node(1));
    let mut b = DirectChannel::new(node(2));
    assert!(matches!(
        a.connect_to_peer(node(2), 10),
        ConnectStep::Subscribe { .. }
    ));
    assert!(matches!(a.connect_to_peer(node(2), 11), ConnectStep::Done));
    b.connect_to_peer(node(1), 10);

    let beacon = a.discovery_beacon(&node(2), 12);
    assert_eq!(beacon.message_type, MessageType::Heartbeat);
    match b.handle_iroh_message(beacon, node(1), 13) {
        Incoming::Handshake { topic } => assert_eq!(topic, b.get_channel_topic(node(1))),
        other => panic!("not greeted: {:?}", other),
    }
    let elsewhere = a.discovery_beacon(&node(9), 12);
    assert!(matches!(
        b.handle_iroh_message(elsewhere, node(1), 13),
        Incoming::Nothing
    ));

    let greeting = b.handshake_message(14);
    match a.handle_iroh_message(greeting, node(2), 15) {
        Incoming::Event(DirectChannelEvent::PeerConnected(peer)) => {
            assert_eq!(peer.bytes, [2; 32])
        }
        other => panic!("not connected: {:?}", other),
    }
    assert_eq!(bytes_of(&a.list_connected_peers()), vec![2]);
}

#[test]
fn events_change_the_channel_of_their_peer() {
    let mut channel = DirectChannel::new(node(1));
    channel.connect_to_peer(node(2), 0);
    channel.connect_to_peer(node(3), 0);
    channel.handle_event(DirectChannelEvent::PeerConnected(node(2)), 5);
    let emitted = channel
        .handle_event(
            DirectChannelEvent::MessageReceived {
                peer: node(2),
                payload: vec![1, 2],
            },
            9,
        )
        .unwrap();
    assert_eq!(emitted.payload, vec![1, 2]);
    assert_eq!(emitted.peer.bytes, [2; 32]);
    let mut stats: Vec<(u8, (u64, u64))> = channel
        .get_channel_stats(19)
        .iter()
        .map(|(peer, stats)| (peer.bytes[0], *stats))
        .collect();
    stats.sort();
    assert_eq!(stats, vec![(2, (1, 10)), (3, (0, 19))]);
    let large = DirectChannelEvent::MessageReceived {
        peer: node(2),
        payload: vec![0; MAX_MESSAGE_SIZE + 1],
    };
    assert!(channel.handle_event(large, 20).is_none());
    assert_eq!(channel.channel(&node(2)).unwrap().message_count, 1);
    assert!(DirectChannel::new(node(1)).get_channel_stats(19).is_empty());

    channel.handle_event(DirectChannelEvent::HeartbeatTimeout(node(2)), 30);
    match &channel.channel(&node(2)).unwrap().connection_status {
        ConnectionStatus::Error(words) => assert_eq!(words, "Heartbeat timeout"),
        other => panic!("wrong status: {:?}", other),
    }
}

#[test]
fn heartbeats_and_reconnects_fall_due() {
    let mut channel = DirectChannel::new(node(1));
    channel.connect_to_peer(node(2), 0);
    channel.handle_event(DirectChannelEvent::PeerConnected(node(2)), 0);
    assert!(channel.peers_to_heartbeat(HEARTBEAT_INTERVAL).is_empty());
    assert_eq!(bytes_of(&channel.peers_to_heartbeat(HEARTBEAT_INTERVAL + 1)), vec![2]);

    channel.handle_event(DirectChannelEvent::PeerDisconnected(node(2)), 1);
    assert!(channel.peers_to_reconnect(60_000_000_000).is_empty());
    assert_eq!(bytes_of(&channel.peers_to_reconnect(60_000_000_001)), vec![2]);
    channel.handle_event(DirectChannelEvent::HeartbeatTimeout(node(2)), 1);
    assert_eq!(bytes_of(&channel.peers_to_reconnect(30_000_000_001)), vec![2]);
    let topic = channel.begin_reconnect(&node(2), 40_000_000_000).unwrap();
    assert_eq!(topic, channel.get_channel_topic(node(2)));
    assert!(channel.peers_to_reconnect(99_000_000_000).is_empty());
}

#[test]
fn data_that_is_too_large_is_not_sent() {
    let channel = DirectChannel::new(node(1));
    let (topic, message) = channel.send_data(node(2), b"hi".to_vec(), 7).unwrap();
    assert_eq!(topic, channel.get_channel_topic(node(2)));
    assert_eq!(message.payload, b"hi".to_vec());
    assert_eq!(message.sender, "01".repeat(32));
    assert_eq!(message.message_type, MessageType::Data);
    let refused = channel.send_data(node(2), vec![0; MAX_MESSAGE_SIZE + 1], 7);
    assert_eq!(
        refused.unwrap_err().message(),
        "Message too large: 1048577 bytes (maximum: 1048576)"
    );
    let (event, result) = DirectChannel::sent(node(2), Err("down".to_string()));
    assert!(matches!(
        event,
        DirectChannelEvent::MessageSent { success: false, .. }
    ));
    assert_eq!(result.unwrap_err().message(), "Error publishing message: down");
}

#[test]
fn a_peer_that_is_not_found_is_told() {
    let mut channel = DirectChannel::new(node(1));
    channel.connect_to_peer(node(2), 0);
    let error = channel.discovery_failed(&node(2), "deadline");
    assert_eq!(
        error.message(),
        &format!("Timeout discovering peer {} after 30s", "02".repeat(32))
    );
    assert_eq!(bytes_of(&channel.stop()), vec![2]);
    assert!(channel.list_connected_peers().is_empty());
}

#[test]
fn a_peer_is_searched_for_and_found() {
    let mut search = Establishing::new(node(2), 0);
    assert!(matches!(
        search.step(EstablishEvent::Peers(vec![node(3)]), 0),
        EstablishAction::AskTopic
    ));
    assert!(matches!(
        search.step(EstablishEvent::Peers(vec![]), 1),
        EstablishAction::AskConnected
    ));
    match search.step(EstablishEvent::Peers(vec![]), 2) {
        EstablishAction::Sleep(pause) => assert_eq!(pause, DISCOVERY_PAUSE),
        other => panic!("no pause: {:?}", other),
    }
    assert!(matches!(
        search.step(EstablishEvent::Woke, 3),
        EstablishAction::AskTopic
    ));
    assert!(matches!(
        search.step(EstablishEvent::Peers(vec![node(2)]), 4),
        EstablishAction::SendHandshake
    ));
    assert!(matches!(
        search.step(EstablishEvent::Greeted(true), 5),
        EstablishAction::Connected(_)
    ));
}

#[test]
fn a_search_that_finds_nobody_sends_a_beacon_and_ends() {
    let mut search = Establishing::new(node(2), 0);
    search.step(EstablishEvent::Peers(vec![]), 0);
    search.step(EstablishEvent::Peers(vec![]), 1);
    search.step(EstablishEvent::Peers(vec![]), 2);
    let late = CONNECTION_TIMEOUT;
    assert!(matches!(
        search.step(EstablishEvent::Woke, late),
        EstablishAction::SendBeacon
    ));
    assert!(matches!(
        search.step(EstablishEvent::BeaconSent(Ok(())), late),
        EstablishAction::AskTopic
    ));
    match search.step(EstablishEvent::Peers(vec![]), late + 1) {
        EstablishAction::Sleep(pause) => assert_eq!(pause, BEACON_PAUSE),
        other => panic!("no pause: {:?}", other),
    }
    assert!(matches!(
        search.step(EstablishEvent::Woke, late + BEACON_TIMEOUT),
        EstablishAction::NotFound
    ));
}

#[test]
fn a_bridge_tracks_the_neighbors_of_a_topic() {
    let mut bridge = IrohBridge::new(node(1));
    let topic = IrohBridge::topic_id_from_str("t");
    assert_eq!(
        bridge.publish(&topic).unwrap_err().message(),
        &format!(
            "Topic {} is not subscribed for publication",
            hex::encode(&topic[..5])
        )
    );
    assert!(bridge.get_topic_receiver(&topic).is_err());
    assert!(matches!(
        bridge.subscribe_topic(&topic, vec![node(2)]),
        SubscribeStep::Subscribe { .. }
    ));
    assert!(matches!(
        bridge.subscribe_topic(&topic, vec![]),
        SubscribeStep::Done
    ));
    assert!(matches!(
        bridge.subscribe_topic(&topic, vec![node(3)]),
        SubscribeStep::Resubscribe { .. }
    ));
    assert!(bridge.publish(&topic).is_ok());
    bridge.handle_event(&topic, BridgeEvent::NeighborUp(node(4)));
    assert_eq!(bytes_of(&bridge.get_topic_peers(&topic)), vec![4]);
    bridge.handle_event(&topic, BridgeEvent::NeighborDown(node(4)));
    assert!(bridge.get_topic_peers(&topic).is_empty());
    let heard = BridgeEvent::Received {
        peer: node(4),
        content: vec![7],
    };
    assert!(matches!(
        bridge.handle_event(&topic, heard),
        BridgeAction::Forward { .. }
    ));
    assert!(matches!(
        bridge.handle_event(&topic, BridgeEvent::Failed),
        BridgeAction::Stop
    ));
    bridge.update_connected_peers(vec![node(5), node(6)]);
    let stats = bridge.get_interface_stats();
    assert_eq!(stats.get("interface_connected_peers"), Some(&2));
    assert_eq!(stats.get("interface_tracked_topics"), Some(&1));
}

#[test]
fn a_topic_tells_who_joined_and_who_left() {
    let mut topic = PsTopic::new("t");
    let (joined, left) = topic.peers_diff(vec![node(1), node(2)]);
    assert_eq!(bytes_of(&joined), vec![1, 2]);
    assert!(left.is_empty());
    let (joined, left) = topic.peers_diff(vec![node(2), node(3)]);
    assert_eq!(bytes_of(&joined), vec![3]);
    assert_eq!(bytes_of(&left), vec![1]);
    let events = topic.peer_events(&joined, &left);
    assert!(matches!(&events[0], EventPubSub::Join { peer, .. } if peer.bytes == [3; 32]));
    assert!(matches!(&events[1], EventPubSub::Leave { topic, .. } if topic == "t"));
    let (joined, left) = topic.peers_diff(vec![node(2), node(3)]);
    assert!(joined.is_empty() && left.is_empty());
}

#[test]
fn a_cancelled_topic_takes_no_message() {
    let mut topic = PsTopic::new("t");
    assert!(topic.publish(b"m", false).is_ok());
    assert_eq!(
        topic.publish(b"", false).unwrap_err().message(),
        "Cannot publish empty message"
    );
    assert_eq!(
        topic.publish(b"m", true).unwrap_err().message(),
        "Cannot publish to cancelled topic"
    );
    topic.cancel();
    assert!(topic.publish(b"m", false).is_err());
}

#[test]
fn topics_are_watched_until_they_are_removed() {
    let mut pubsub = CoreApiPubSub::new();
    pubsub.topic_subscribe("a");
    pubsub.topic_subscribe("b");
    pubsub.topic_subscribe("a");
    assert_eq!(pubsub.topic_stats(), (2, 2));
    assert!(pubsub.remove_topic("a"));
    assert!(!pubsub.remove_topic("a"));
    assert!(!pubsub.is_subscribed("a"));
    pubsub.topic_subscribe("c");
    let (joining, _) = pubsub.topic_mut("b").unwrap().peers_diff(vec![node(4)]);
    assert_eq!(bytes_of(&joining), vec![4]);
    let (joining, leaving) = pubsub.topic_mut("b").unwrap().peers_diff(vec![node(5)]);
    assert_eq!((bytes_of(&joining), bytes_of(&leaving)), (vec![5], vec![4]));
    pubsub.topic_mut("b").unwrap().clear_members();
    let (joining, leaving) = pubsub.topic_mut("b").unwrap().peers_diff(vec![node(5)]);
    assert_eq!((bytes_of(&joining), leaving.len()), (vec![5], 0));
    assert!(pubsub.topic_mut("a").is_none());
    pubsub.topic_mut("c").unwrap().cancel();
    assert!(pubsub.topic("c").unwrap().is_cancelled());
    assert_eq!(pubsub.topic_stats(), (2, 1));
    assert_eq!(pubsub.cleanup_cancelled_topics(), 1);
    assert!(pubsub.topic("c").is_none());
    pubsub.cancel();
    assert_eq!(pubsub.topic_stats(), (1, 0));
    assert_eq!(pubsub.cleanup_cancelled_topics(), 1);
    assert_eq!(pubsub.topic_stats(), (0, 0));
}

#[test]
fn a_one_on_one_channel_is_connected_before_it_is_used() {
    let mut channels = Channels::new(node(2));
    assert_eq!(
        channels.get_channel_id(&node(1)),
        channel_id_of(&node(1), &node(2))
    );
    assert_eq!(
        channels.send(&node(1)).unwrap_err().message(),
        &format!(
            "Peer {} is not connected. Call connect() first.",
            "01".repeat(32)
        )
    );
    assert!(channels.connect(&node(1)).is_some());
    channels.subscribed(&node(1));
    assert!(channels.connect(&node(1)).is_none());
    assert!(channels.send(&node(1)).is_ok());
    channels.monitor_ended(&node(1));
    assert!(channels.send(&node(1)).is_err());
    channels.subscribed(&node(1));
    channels.close();
    assert!(channels.send(&node(1)).is_err());
}

#[test]
fn what_comes_on_a_topic_is_consumed() {
    let channel = DirectChannel::new(node(1));
    let (_, message) = channel.send_data(node(2), vec![4], 0).unwrap();
    match DirectChannel::consumer_step(Reception::Message {
        peer: node(2),
        message,
    }) {
        ConsumerAction::Emit(DirectChannelEvent::MessageReceived { payload, .. }) => {
            assert_eq!(payload, vec![4])
        }
        other => panic!("not emitted: {:?}", other),
    }
    let heartbeat = DirectChannel::heartbeat_message(0);
    assert_eq!(heartbeat.sender, "heartbeat");
    assert!(matches!(
        DirectChannel::consumer_step(Reception::Message {
            peer: node(2),
            message: heartbeat
        }),
        ConsumerAction::Emit(DirectChannelEvent::HeartbeatReceived(_))
    ));
    assert!(matches!(
        DirectChannel::consumer_step(Reception::Unreadable),
        ConsumerAction::Continue
    ));
    assert!(matches!(
        DirectChannel::consumer_step(Reception::Closed),
        ConsumerAction::Stop
    ));
    assert!(DirectChannel::heartbeat_sent(node(2), true).is_none());
    assert!(matches!(
        DirectChannel::heartbeat_sent(node(2), false),
        Some(DirectChannelEvent::HeartbeatTimeout(_))
    ));
}

#[test]
fn a_message_without_a_sender_is_an_event_too() {
    assert_eq!(new_event_message(vec![1, 2]).content, vec![1, 2]);
}

#[test]
fn a_bridge_is_told_of_its_peers() {
    let mut bridge = IrohBridge::new(node(1));
    assert!(bridge.get_connected_peers().is_empty());
    bridge.update_connected_peers(vec![node(2), node(3)]);
    assert_eq!(bytes_of(&bridge.get_connected_peers()), vec![2, 3]);
    bridge.update_topic_peers([7; 32], vec![node(3)]);
    assert_eq!(bytes_of(&bridge.get_topic_peers(&[7; 32])), vec![3]);
    assert_eq!(
        IrohBridge::subscribe_error(true, "torn").message(),
        "Error re-subscribing to topic: torn"
    );
    assert_eq!(
        IrohBridge::subscribe_error(false, "torn").message(),
        "Error subscribing to topic: torn"
    );
}
