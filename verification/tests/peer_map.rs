use jormungandr::blockcfg::{BlockDate, Header, HeaderHash};
use jormungandr::comm::{BlockEvent, Gossip, PeerComms, StreamPoll};
use jormungandr::peer_map::PeerMap;
use jormungandr::topology::{Node, NodeId};

fn header(n: u64) -> Header {
    Header { hash: HeaderHash(n), date: BlockDate { epoch: 1, slot_id: n as u32 } }
}

#[test]
fn propagate_block_reaches_both_subscribed_peers() {
    // Two peers; insert both; subscribe both to announcements; propagate
    // one header; both streams yield exactly it and nothing further, and
    // the map still contains both peers.
    let a = NodeId(1);
    let b = NodeId(2);
    let mut map = PeerMap::new();
    map.insert_peer(a, PeerComms::new());
    map.insert_peer(b, PeerComms::new());
    let mut sub_a = map.subscribe_to_block_events(a);
    let mut sub_b = map.subscribe_to_block_events(b);
    let h = header(9);
    let r = map.propagate_block(vec![Node::new(a), Node::new(b)], h);
    assert!(r.is_ok());
    assert_eq!(map.poll_block_event(&mut sub_a), StreamPoll::Ready(BlockEvent::Announce(h)));
    assert_eq!(map.poll_block_event(&mut sub_a), StreamPoll::Pending);
    assert_eq!(map.poll_block_event(&mut sub_b), StreamPoll::Ready(BlockEvent::Announce(h)));
    assert_eq!(map.poll_block_event(&mut sub_b), StreamPoll::Pending);
    assert!(map.contains_peer(a));
    assert!(map.contains_peer(b));
    assert_eq!(map.peer_count(), 2);
}

#[test]
fn dropped_consumer_removes_peer_on_propagation() {
    // Drop the consumer stream; the next propagation observes the closed
    // channel, removes the record, and reports the peer unreached.
    let a = NodeId(1);
    let mut map = PeerMap::new();
    map.insert_peer(a, PeerComms::new());
    let sub = map.subscribe_to_block_events(a);
    map.close_block_events(&sub);
    let r = map.propagate_block(vec![Node::new(a)], header(5));
    let unreached = r.unwrap_err();
    assert_eq!(unreached.len(), 1);
    assert_eq!(unreached[0].id(), a);
    assert!(!map.contains_peer(a));
}

#[test]
fn overflow_removes_peer_on_propagation() {
    // A subscribed but never polled peer accepts eight sends; the ninth
    // propagation overflows, removes the peer, and reports it unreached.
    let a = NodeId(1);
    let mut map = PeerMap::new();
    map.insert_peer(a, PeerComms::new());
    let _sub = map.subscribe_to_block_events(a);
    for n in 0..8u64 {
        assert!(map.propagate_block(vec![Node::new(a)], header(n)).is_ok());
    }
    let r = map.propagate_block(vec![Node::new(a)], header(8));
    let unreached = r.unwrap_err();
    assert_eq!(unreached.len(), 1);
    assert_eq!(unreached[0].id(), a);
    assert!(!map.contains_peer(a));
}

#[test]
fn unknown_peer_is_unreached_but_known_unsubscribed_peer_stays() {
    let known = NodeId(1);
    let unknown = NodeId(2);
    let mut map = PeerMap::new();
    map.insert_peer(known, PeerComms::new());
    // `known` has no announcement subscription; `unknown` has no record.
    let r = map.propagate_block(vec![Node::new(known), Node::new(unknown)], header(1));
    let unreached = r.unwrap_err();
    assert_eq!(unreached.len(), 2);
    // Not subscribed is no reason to drop the record.
    assert!(map.contains_peer(known));
    assert!(!map.contains_peer(unknown));
}

#[test]
fn reinserting_peer_supersedes_its_streams() {
    let a = NodeId(1);
    let mut map = PeerMap::new();
    map.insert_peer(a, PeerComms::new());
    let old_sub = map.subscribe_to_messages(a);
    map.insert_peer(a, PeerComms::new());
    assert_eq!(map.peer_count(), 1);
    // The replaced record's stream has ended.
    assert_eq!(map.poll_messages(a, &old_sub), StreamPoll::Ended);
}

#[test]
fn resubscribing_through_map_supersedes_previous_stream() {
    let a = NodeId(1);
    let mut map = PeerMap::new();
    let old_sub = map.subscribe_to_messages(a);
    let new_sub = map.subscribe_to_messages(a);
    let msg = jormungandr::blockcfg::Message(42);
    assert!(map.propagate_message(vec![Node::new(a)], msg).is_ok());
    assert_eq!(map.poll_messages(a, &old_sub), StreamPoll::Ended);
    assert_eq!(map.poll_messages(a, &new_sub), StreamPoll::Ready(msg));
}

#[test]
fn gossip_to_unknown_peer_surrenders_payload() {
    let mut map = PeerMap::new();
    let gossip = Gossip { nodes: vec![Node::new(NodeId(7))] };
    let back = map.propagate_gossip_to(NodeId(1), gossip.clone()).unwrap_err();
    assert_eq!(back, gossip);
}

#[test]
fn gossip_roundtrip_and_unsubscribed_failure() {
    let a = NodeId(1);
    let mut map = PeerMap::new();
    map.insert_peer(a, PeerComms::new());
    let gossip = Gossip { nodes: vec![Node::new(NodeId(7))] };
    // Known peer, gossip topic not subscribed: payload surrendered,
    // record kept.
    let back = map.propagate_gossip_to(a, gossip.clone()).unwrap_err();
    assert_eq!(back, gossip);
    assert!(map.contains_peer(a));
    // After subscribing, the payload arrives.
    let sub = map.subscribe_to_gossip(a);
    assert!(map.propagate_gossip_to(a, gossip.clone()).is_ok());
    assert_eq!(map.poll_gossip(a, &sub), StreamPoll::Ready(gossip));
}

#[test]
fn solicit_blocks_delivers_and_drops_quietly() {
    let a = NodeId(1);
    let mut map = PeerMap::new();
    let mut sub = map.subscribe_to_block_events(a);
    let hashes = vec![HeaderHash(3), HeaderHash(4)];
    map.solicit_blocks(a, hashes.clone());
    assert_eq!(map.poll_block_event(&mut sub), StreamPoll::Ready(BlockEvent::Solicit(hashes)));
    // Unknown peer: the request is dropped, nothing changes.
    map.solicit_blocks(NodeId(9), vec![HeaderHash(5)]);
    assert_eq!(map.peer_count(), 1);
}

#[test]
fn block_events_merge_announcements_and_solicitations() {
    let a = NodeId(1);
    let mut map = PeerMap::new();
    let mut sub = map.subscribe_to_block_events(a);
    let h = header(1);
    let hashes = vec![HeaderHash(2)];
    assert!(map.propagate_block(vec![Node::new(a)], h).is_ok());
    map.solicit_blocks(a, hashes.clone());
    // Both events arrive; within each topic the order is FIFO.
    let first = map.poll_block_event(&mut sub);
    let second = map.poll_block_event(&mut sub);
    let got = [first, second];
    assert!(got.contains(&StreamPoll::Ready(BlockEvent::Announce(h))));
    assert!(got.contains(&StreamPoll::Ready(BlockEvent::Solicit(hashes))));
    assert_eq!(map.poll_block_event(&mut sub), StreamPoll::Pending);
}

#[test]
fn subscribing_creates_record_lazily() {
    let a = NodeId(4);
    let mut map = PeerMap::new();
    assert!(!map.contains_peer(a));
    let _sub = map.subscribe_to_messages(a);
    assert!(map.contains_peer(a));
    assert_eq!(map.peer_count(), 1);
}

#[test]
fn failed_peer_does_not_disturb_others() {
    // Per-peer failure isolation: removing one broken peer leaves the
    // other's record and buffered items intact.
    let a = NodeId(1);
    let b = NodeId(2);
    let mut map = PeerMap::new();
    let sub_a = map.subscribe_to_messages(a);
    let sub_b = map.subscribe_to_messages(b);
    let m1 = jormungandr::blockcfg::Message(1);
    map.close_messages(a, &sub_a);
    let r = map.propagate_message(vec![Node::new(a), Node::new(b)], m1);
    let unreached = r.unwrap_err();
    assert_eq!(unreached.len(), 1);
    assert_eq!(unreached[0].id(), a);
    assert!(!map.contains_peer(a));
    assert!(map.contains_peer(b));
    assert_eq!(map.poll_messages(b, &sub_b), StreamPoll::Ready(m1));
}
