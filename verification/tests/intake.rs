use jormungandr::blockcfg::{Block, BlockDate, Header, HeaderHash};
use jormungandr::comm::{BlockEvent, PeerComms, StreamPoll};
use jormungandr::peer_map::PeerMap;
use jormungandr::process::{block_to_apply, process, BlockMsg};
use jormungandr::topology::{Node, NodeId};

fn block(n: u64) -> Block {
    Block {
        header: Header { hash: HeaderHash(n), date: BlockDate { epoch: 0, slot_id: 1 } },
        fragments: vec![],
    }
}

#[test]
fn network_block_is_applied_but_not_rebroadcast() {
    let msg = BlockMsg::NetworkBlock(block(1));
    assert_eq!(block_to_apply(&msg), &block(1));
    assert_eq!(process(msg, true), None);
}

#[test]
fn leadership_block_is_rebroadcast_after_successful_apply() {
    let msg = BlockMsg::LeadershipBlock(block(2));
    assert_eq!(block_to_apply(&msg), &block(2));
    assert_eq!(process(msg, true), Some(block(2)));
}

#[test]
fn leadership_block_is_not_advertised_when_apply_fails() {
    let msg = BlockMsg::LeadershipBlock(block(3));
    assert_eq!(process(msg, false), None);
}

#[test]
fn applied_leadership_block_reaches_subscribed_peers_in_order() {
    // The router surrenders the applied block; its header then goes out
    // on the announcement topic of every subscribed peer.
    let a = NodeId(1);
    let b = NodeId(2);
    let mut map = PeerMap::new();
    map.insert_peer(a, PeerComms::new());
    map.insert_peer(b, PeerComms::new());
    let mut sub_a = map.subscribe_to_block_events(a);
    let mut sub_b = map.subscribe_to_block_events(b);

    let produced = process(BlockMsg::LeadershipBlock(block(4)), true).unwrap();
    let targets = vec![Node::new(a), Node::new(b)];
    assert!(map.propagate_block(targets, produced.header).is_ok());

    for sub in [&mut sub_a, &mut sub_b] {
        assert_eq!(
            map.poll_block_event(sub),
            StreamPoll::Ready(BlockEvent::Announce(block(4).header))
        );
    }
}
