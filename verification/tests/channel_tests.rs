use lockstep_core::channel::ChannelPair;
use lockstep_core::messages::{ChannelId, MessageKind, NetworkMessage};
use lockstep_core::network_queue::ResNetworkQueue;

#[test]
fn test_fake_network_pair() {
    // Ensure we can send and receive messages over the in-memory pair.
    let mut pair = ChannelPair::new();

    pair.send_from_left(vec![NetworkMessage::Ping(1)]);
    pair.send_from_left(vec![NetworkMessage::Ping(2), NetworkMessage::Pong(3)]);
    pair.send_from_right(vec![NetworkMessage::Ping(4)]);

    assert_eq!(
        pair.drain_right().as_slice(),
        [
            NetworkMessage::Ping(1),
            NetworkMessage::Ping(2),
            NetworkMessage::Pong(3)
        ]
    );

    pair.send_from_left(vec![NetworkMessage::Ping(5)]);

    assert_eq!(pair.drain_right().as_slice(), [NetworkMessage::Ping(5)]);
    assert_eq!(pair.drain_left().as_slice(), [NetworkMessage::Ping(4)]);
}

#[test]
fn sends_are_drained_in_send_order() {
    // Two send calls from one side are observed by the other side in
    // call order, each with its own messages in order.
    let mut pair = ChannelPair::new();
    pair.send_from_left(vec![NetworkMessage::Ping(10), NetworkMessage::Ping(11)]);
    pair.send_from_left(vec![NetworkMessage::Ping(12)]);
    let drained = pair.drain_right();
    assert_eq!(
        drained.as_slice(),
        [
            NetworkMessage::Ping(10),
            NetworkMessage::Ping(11),
            NetworkMessage::Ping(12)
        ]
    );
    assert!(pair.drain_right().is_empty());
}

#[test]
fn take_inbound_preserves_relative_order() {
    let mut q = ResNetworkQueue::new();
    let cid = ChannelId(1);
    q.on_messages(
        cid,
        vec![
            NetworkMessage::Ping(1),
            NetworkMessage::Pong(2),
            NetworkMessage::Ping(3),
            NetworkMessage::Pong(4),
        ],
    );
    let pings = q.take_inbound(&cid, MessageKind::Ping);
    assert_eq!(
        pings.as_slice(),
        [NetworkMessage::Ping(1), NetworkMessage::Ping(3)]
    );
    let rest = q.take_inbound(&cid, MessageKind::Pong);
    assert_eq!(
        rest.as_slice(),
        [NetworkMessage::Pong(2), NetworkMessage::Pong(4)]
    );
    assert!(q.take_inbound(&cid, MessageKind::Ping).is_empty());
}

#[test]
fn outbound_queues_flush_atomically() {
    let mut q = ResNetworkQueue::new();
    let a = ChannelId(1);
    let b = ChannelId(2);
    q.send(&a, NetworkMessage::Ping(1));
    q.send_many(&b, vec![NetworkMessage::Pong(2), NetworkMessage::Ping(3)]);
    q.send(&a, NetworkMessage::Pong(4));
    let flushed = q.take_outbound();
    let mut seen_a = false;
    let mut seen_b = false;
    for (cid, msgs) in &flushed {
        if *cid == a {
            seen_a = true;
            assert_eq!(
                msgs.as_slice(),
                [NetworkMessage::Ping(1), NetworkMessage::Pong(4)]
            );
        }
        if *cid == b {
            seen_b = true;
            assert_eq!(
                msgs.as_slice(),
                [NetworkMessage::Pong(2), NetworkMessage::Ping(3)]
            );
        }
    }
    assert!(seen_a && seen_b);
    // Flushing again finds nothing.
    for (_, msgs) in q.take_outbound() {
        assert!(msgs.is_empty());
    }
}
