use wallet_p2p::codec::{encode_frame, MsgId, NetworkMessage};
use wallet_p2p::engine::dispatch;
use wallet_p2p::seen::SeenCache;
use wallet_p2p::engine::{Action, AppEvent, CommandQueue, Engine, Event, PublishError};
use wallet_p2p::PeerId;

fn topic() -> Vec<u8> {
    b"wallet-updates".to_vec()
}

fn engine(id: u64) -> Engine {
    Engine::new(PeerId::new(id), 16, 64)
}

#[test]
fn test_network_initialization() {
    let e = engine(1);
    assert_eq!(e.next_seq, 0);
    assert_eq!(e.decode_errors, 0);
    assert!(e.subscriptions.is_empty());
    let mut q = CommandQueue::new(100);
    assert!(q.enqueue(Event::Shutdown).is_ok());
}

#[test]
fn publish_with_empty_view_reports_no_recipients() {
    let mut a = engine(1);
    a.subscribe(&topic());
    let m = NetworkMessage::WalletUpdate { address: b"0xabc".to_vec(), balance_nanos: 1 };
    let r = a.publish(&topic(), &m);
    assert!(matches!(r, Err(PublishError::NoRecipients)));
    assert_eq!(a.next_seq, 0);
}

#[test]
fn publish_step_reports_failure_action() {
    let mut a = engine(1);
    a.subscribe(&topic());
    let m = NetworkMessage::WalletUpdate { address: b"0xabc".to_vec(), balance_nanos: 1 };
    let actions = a.step(Event::PublishRequest { topic: topic(), message: m });
    assert_eq!(actions.len(), 1);
    assert!(matches!(
        actions[0],
        Action::PublishFailed { error: PublishError::NoRecipients }
    ));
}

#[test]
fn two_nodes_deliver_wallet_update_once() {
    // Node A floods a wallet update to node B, which it discovered; B gets
    // exactly one wallet-state event with the published fields.
    let mut a = engine(1);
    let mut b = engine(2);
    a.subscribe(&topic());
    b.subscribe(&topic());
    a.handle_discovered(PeerId::new(2));

    let m = NetworkMessage::WalletUpdate { address: b"0xabc".to_vec(), balance_nanos: 1_500_000_000 };
    let flood = a.publish(&topic(), &m).expect("B is in A's view");
    assert_eq!(flood.recipients, vec![PeerId::new(2)]);

    let actions = b.step(Event::Frame { sender: PeerId::new(1), bytes: flood.frame });
    assert_eq!(actions.len(), 2);
    match &actions[0] {
        Action::Deliver { event: AppEvent::WalletState { address, balance_nanos } } => {
            assert_eq!(address, &b"0xabc".to_vec());
            assert_eq!(*balance_nanos, 1_500_000_000u64);
        }
        other => panic!("expected a wallet-state delivery, got {:?}", other),
    }
    // B relays to everyone on the topic except the sender; B knows no one.
    match &actions[1] {
        Action::Flood { recipients, frame: _ } => assert!(recipients.is_empty()),
        other => panic!("expected a relay action, got {:?}", other),
    }
}

#[test]
fn flood_cycle_delivers_once_per_node() {
    // A triangle: A publishes and floods to B and C directly; B and C each
    // relay to the other, so the same identifier travels a cycle. Each node
    // still delivers the message exactly once.
    let mut a = engine(1);
    let mut b = engine(2);
    let mut c = engine(3);
    for e in [&mut a, &mut b, &mut c] {
        e.subscribe(&topic());
    }
    a.handle_discovered(PeerId::new(2));
    a.handle_discovered(PeerId::new(3));
    b.handle_discovered(PeerId::new(1));
    b.handle_discovered(PeerId::new(3));
    c.handle_discovered(PeerId::new(1));
    c.handle_discovered(PeerId::new(2));

    let m = NetworkMessage::WalletUpdate { address: b"0xabc".to_vec(), balance_nanos: 9 };
    let flood = a.publish(&topic(), &m).unwrap();
    assert_eq!(flood.recipients.len(), 2);

    // Direct copies from A.
    let b_actions = b.step(Event::Frame { sender: PeerId::new(1), bytes: flood.frame.clone() });
    let c_actions = c.step(Event::Frame { sender: PeerId::new(1), bytes: flood.frame.clone() });
    let deliveries = |actions: &[Action]| {
        actions.iter().filter(|x| matches!(x, Action::Deliver { .. })).count()
    };
    assert_eq!(deliveries(&b_actions), 1);
    assert_eq!(deliveries(&c_actions), 1);
    // B relays to C (not back to A), and C relays to B.
    match &b_actions[1] {
        Action::Flood { recipients, .. } => assert_eq!(recipients, &vec![PeerId::new(3)]),
        other => panic!("expected a relay, got {:?}", other),
    }
    // The relayed copies close the cycle; both are duplicates.
    let b_again = b.step(Event::Frame { sender: PeerId::new(3), bytes: flood.frame.clone() });
    let c_again = c.step(Event::Frame { sender: PeerId::new(2), bytes: flood.frame });
    assert!(b_again.is_empty());
    assert!(c_again.is_empty());
}

#[test]
fn duplicate_frame_dispatches_once() {
    // The same frame twice in quick succession: one delivery, not two.
    let mut a = engine(1);
    let mut b = engine(2);
    a.subscribe(&topic());
    b.subscribe(&topic());
    a.handle_discovered(PeerId::new(2));
    let m = NetworkMessage::WalletUpdate { address: b"0xabc".to_vec(), balance_nanos: 7 };
    let flood = a.publish(&topic(), &m).unwrap();

    let first = b.step(Event::Frame { sender: PeerId::new(1), bytes: flood.frame.clone() });
    assert_eq!(first.len(), 2);
    let second = b.step(Event::Frame { sender: PeerId::new(1), bytes: flood.frame });
    assert!(second.is_empty());
}

#[test]
fn own_flood_echoed_back_is_discarded() {
    let mut a = engine(1);
    a.subscribe(&topic());
    a.handle_discovered(PeerId::new(2));
    let m = NetworkMessage::WalletUpdate { address: b"0xabc".to_vec(), balance_nanos: 7 };
    let flood = a.publish(&topic(), &m).unwrap();
    // A relay brings A's own frame back; the seen cache suppresses it.
    let actions = a.step(Event::Frame { sender: PeerId::new(2), bytes: flood.frame });
    assert!(actions.is_empty());
}

#[test]
fn malformed_frame_keeps_loop_running() {
    let mut a = engine(1);
    let mut b = engine(2);
    a.subscribe(&topic());
    b.subscribe(&topic());
    a.handle_discovered(PeerId::new(2));
    let m = NetworkMessage::WalletUpdate { address: b"0xabc".to_vec(), balance_nanos: 3 };
    let flood = a.publish(&topic(), &m).unwrap();

    let truncated: Vec<u8> = flood.frame[..5].to_vec();
    let actions = b.step(Event::Frame { sender: PeerId::new(1), bytes: truncated });
    assert!(actions.is_empty());
    assert_eq!(b.decode_errors, 1);

    // The next valid event is processed as if nothing had happened.
    let actions = b.step(Event::Frame { sender: PeerId::new(1), bytes: flood.frame });
    assert_eq!(actions.len(), 2);
}

#[test]
fn discovered_then_expired_peer_is_absent() {
    let mut a = engine(1);
    a.subscribe(&topic());
    a.subscribe(&b"tx-announcements".to_vec());
    a.handle_discovered(PeerId::new(9));
    assert_eq!(a.view.peers_of(&topic()), vec![PeerId::new(9)]);
    a.handle_expired(PeerId::new(9), false);
    assert!(a.view.peers_of(&topic()).is_empty());
    assert!(a.view.peers_of(&b"tx-announcements".to_vec()).is_empty());
}

#[test]
fn expired_peer_with_live_connection_stays() {
    let mut a = engine(1);
    a.subscribe(&topic());
    a.handle_discovered(PeerId::new(9));
    a.handle_expired(PeerId::new(9), true);
    assert_eq!(a.view.peers_of(&topic()), vec![PeerId::new(9)]);
}

#[test]
fn discovery_is_idempotent_per_peer() {
    let mut a = engine(1);
    a.subscribe(&topic());
    a.handle_discovered(PeerId::new(5));
    a.handle_discovered(PeerId::new(5));
    assert_eq!(a.view.peers_of(&topic()), vec![PeerId::new(5)]);
}

#[test]
fn full_view_evicts_oldest_peer() {
    let mut a = Engine::new(PeerId::new(1), 2, 64);
    a.subscribe(&topic());
    a.handle_discovered(PeerId::new(11));
    a.handle_discovered(PeerId::new(12));
    a.handle_discovered(PeerId::new(13));
    assert_eq!(a.view.peers_of(&topic()), vec![PeerId::new(12), PeerId::new(13)]);
}

#[test]
fn subscribe_is_idempotent() {
    let mut a = engine(1);
    a.subscribe(&topic());
    a.subscribe(&topic());
    assert_eq!(a.subscriptions.len(), 1);
}

#[test]
fn seen_cache_window_is_bounded() {
    let mut c = SeenCache::new(2);
    c.insert(MsgId { source: 1, seq: 1 });
    c.insert(MsgId { source: 1, seq: 2 });
    c.insert(MsgId { source: 1, seq: 3 });
    assert!(!c.contains(MsgId { source: 1, seq: 1 }));
    assert!(c.contains(MsgId { source: 1, seq: 2 }));
    assert!(c.contains(MsgId { source: 1, seq: 3 }));
}

#[test]
fn dedup_is_guaranteed_only_within_the_window() {
    // With a one-entry window, a newer identifier evicts the older one, and
    // a copy arriving after eviction is treated as fresh again.
    let mut b = Engine::new(PeerId::new(2), 16, 1);
    b.subscribe(&topic());
    let m = NetworkMessage::WalletUpdate { address: b"0xabc".to_vec(), balance_nanos: 1 };
    let f1 = encode_frame(MsgId { source: 1, seq: 0 }, b"wallet-updates", &m);
    let m2 = NetworkMessage::WalletUpdate { address: b"0xdef".to_vec(), balance_nanos: 2 };
    let f2 = encode_frame(MsgId { source: 1, seq: 1 }, b"wallet-updates", &m2);
    let sender = PeerId::new(1);
    assert_eq!(b.step(Event::Frame { sender, bytes: f1.clone() }).len(), 2);
    assert_eq!(b.step(Event::Frame { sender, bytes: f2 }).len(), 2);
    assert_eq!(b.step(Event::Frame { sender, bytes: f1 }).len(), 2);
}

#[test]
fn relay_excludes_the_sender() {
    let mut b = engine(2);
    b.subscribe(&topic());
    b.handle_discovered(PeerId::new(1));
    b.handle_discovered(PeerId::new(3));
    let id = MsgId { source: 1, seq: 0 };
    let m = NetworkMessage::WalletUpdate { address: b"0xabc".to_vec(), balance_nanos: 1 };
    let frame = encode_frame(id, b"wallet-updates", &m);
    let actions = b.step(Event::Frame { sender: PeerId::new(1), bytes: frame });
    match &actions[1] {
        Action::Flood { recipients, .. } => assert_eq!(recipients, &vec![PeerId::new(3)]),
        other => panic!("expected a relay action, got {:?}", other),
    }
}

#[test]
fn shutdown_and_transport_failure_stop_the_loop() {
    let mut a = engine(1);
    let actions = a.step(Event::Shutdown);
    assert_eq!(actions.len(), 1);
    assert!(matches!(actions[0], Action::Stop));
    let actions = a.step(Event::TransportFailed);
    assert!(matches!(actions[0], Action::Stop));
}

#[test]
fn full_command_queue_fails_fast_with_busy() {
    let mut q = CommandQueue::new(1);
    assert!(q.enqueue(Event::Shutdown).is_ok());
    let r = q.enqueue(Event::Discovered { peer: PeerId::new(1) });
    assert!(matches!(r, Err(PublishError::Busy)));
    assert!(matches!(q.dequeue(), Some(Event::Shutdown)));
    assert!(q.dequeue().is_none());
}

#[test]
fn transaction_and_peer_list_messages_route_to_their_collaborators() {
    let tx = NetworkMessage::Transaction {
        from: b"a".to_vec(),
        to: b"b".to_vec(),
        amount_nanos: 5,
        chain_type: b"solana".to_vec(),
    };
    assert!(matches!(dispatch(tx), AppEvent::BlockchainTx { .. }));
    let pl = NetworkMessage::PeerDiscovery { peers: vec![b"p".to_vec()] };
    assert!(matches!(dispatch(pl), AppEvent::Peers { .. }));
}
