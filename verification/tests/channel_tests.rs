use coordination::attempt::Attempt;
use coordination::channel::{Channel, Drained, SendAttempt, SendError};

fn text(s: &str) -> String {
    String::from(s)
}

#[test]
fn new_channel_is_open_and_empty() {
    let (channel, sender) = Channel::<String>::new();
    assert_eq!(sender.id(), 0);
    assert!(channel.is_live(&sender));
    assert_eq!(channel.live_senders(), 1);
    assert!(channel.has_receiver());
    assert!(!channel.is_closed());
    assert_eq!(channel.len(), 0);
}

#[test]
fn messages_arrive_in_the_order_sent() {
    let (mut channel, sender) = Channel::new();
    assert_eq!(channel.send(&sender, text("hi")), SendAttempt::Ready(Ok(())));
    assert_eq!(channel.send(&sender, text("from")), SendAttempt::Ready(Ok(())));
    assert_eq!(channel.send(&sender, text("the")), SendAttempt::Ready(Ok(())));
    assert_eq!(channel.len(), 3);
    assert_eq!(channel.recv(), Attempt::Ready(Some(text("hi"))));
    assert_eq!(channel.recv(), Attempt::Ready(Some(text("from"))));
    assert_eq!(channel.recv(), Attempt::Ready(Some(text("the"))));
    assert_eq!(channel.len(), 0);
}

#[test]
fn recv_on_an_empty_open_channel_would_block() {
    let (mut channel, sender) = Channel::<u32>::new();
    assert_eq!(channel.recv(), Attempt::WouldBlock);
    assert_eq!(channel.send(&sender, 7), SendAttempt::Ready(Ok(())));
    assert_eq!(channel.recv(), Attempt::Ready(Some(7)));
    assert_eq!(channel.recv(), Attempt::WouldBlock);
}

#[test]
fn recv_reports_the_end_only_when_every_sender_is_gone_and_the_queue_is_empty() {
    let (mut channel, first) = Channel::<u32>::new();
    let second = channel.clone_sender(&first);
    assert_eq!(channel.send(&first, 1), SendAttempt::Ready(Ok(())));
    channel.drop_sender(first);
    assert!(!channel.is_closed());
    assert_eq!(channel.recv(), Attempt::Ready(Some(1)));
    assert_eq!(channel.recv(), Attempt::WouldBlock);
    assert_eq!(channel.send(&second, 2), SendAttempt::Ready(Ok(())));
    channel.drop_sender(second);
    assert!(channel.is_closed());
    assert_eq!(channel.recv(), Attempt::Ready(Some(2)));
    assert_eq!(channel.recv(), Attempt::Ready(None));
}

#[test]
fn the_end_of_the_stream_is_terminal() {
    let (mut channel, sender) = Channel::<u32>::new();
    channel.drop_sender(sender);
    for _ in 0..5 {
        assert_eq!(channel.recv(), Attempt::Ready(None));
    }
    assert!(channel.is_closed());
    assert_eq!(channel.live_senders(), 0);
}

#[test]
fn send_after_the_receiver_is_dropped_fails_with_the_payload() {
    let (mut channel, sender) = Channel::new();
    assert_eq!(channel.send(&sender, text("kept")), SendAttempt::Ready(Ok(())));
    channel.drop_receiver();
    assert!(!channel.has_receiver());
    assert_eq!(
        channel.send(&sender, text("lost")),
        SendAttempt::Ready(Err(SendError(text("lost"))))
    );
    assert_eq!(channel.len(), 1);
}

#[test]
fn send_to_a_dropped_receiver_never_blocks_even_on_a_full_queue() {
    let (mut channel, sender) = Channel::<u32>::bounded(1);
    assert_eq!(channel.send(&sender, 1), SendAttempt::Ready(Ok(())));
    assert_eq!(channel.send(&sender, 2), SendAttempt::WouldBlock(2));
    channel.drop_receiver();
    assert_eq!(channel.send(&sender, 2), SendAttempt::Ready(Err(SendError(2))));
}

#[test]
fn bounded_channel_blocks_the_producer_until_the_consumer_makes_room() {
    let (mut channel, sender) = Channel::<u32>::bounded(2);
    assert_eq!(channel.send(&sender, 1), SendAttempt::Ready(Ok(())));
    assert_eq!(channel.send(&sender, 2), SendAttempt::Ready(Ok(())));
    assert_eq!(channel.send(&sender, 3), SendAttempt::WouldBlock(3));
    assert_eq!(channel.len(), 2);
    assert_eq!(channel.recv(), Attempt::Ready(Some(1)));
    assert_eq!(channel.send(&sender, 3), SendAttempt::Ready(Ok(())));
    assert_eq!(channel.recv(), Attempt::Ready(Some(2)));
    assert_eq!(channel.recv(), Attempt::Ready(Some(3)));
}

#[test]
fn bounded_channel_of_capacity_zero_takes_nothing() {
    let (mut channel, sender) = Channel::<u32>::bounded(0);
    assert_eq!(channel.send(&sender, 1), SendAttempt::WouldBlock(1));
    assert_eq!(channel.len(), 0);
}

#[test]
fn unbounded_channel_never_blocks_the_producer() {
    let (mut channel, sender) = Channel::<usize>::new();
    for i in 0..1000 {
        assert_eq!(channel.send(&sender, i), SendAttempt::Ready(Ok(())));
    }
    assert_eq!(channel.len(), 1000);
}

#[test]
fn clones_get_fresh_ids_and_count_as_live() {
    let (mut channel, first) = Channel::<u32>::new();
    let second = channel.clone_sender(&first);
    let third = channel.clone_sender(&second);
    assert_eq!(second.id(), 1);
    assert_eq!(third.id(), 2);
    assert_eq!(channel.live_senders(), 3);
    channel.drop_sender(second);
    assert_eq!(channel.live_senders(), 2);
    assert!(channel.is_live(&first));
    assert!(channel.is_live(&third));
    let fourth = channel.clone_sender(&third);
    assert_eq!(fourth.id(), 3);
    assert_eq!(channel.live_senders(), 3);
}

#[test]
fn an_id_that_a_channel_never_issued_is_not_live_there() {
    let (mut one, first) = Channel::<u32>::new();
    let (other, _) = Channel::<u32>::new();
    let clone = one.clone_sender(&first);
    assert!(one.is_live(&clone));
    assert!(!other.is_live(&clone));
}

#[test]
fn each_sender_keeps_its_own_order_whatever_the_interleaving() {
    let (mut channel, first) = Channel::new();
    let second = channel.clone_sender(&first);
    channel.send(&first, (1, 'a'));
    channel.send(&second, (2, 'x'));
    channel.send(&second, (2, 'y'));
    channel.send(&first, (1, 'b'));
    channel.send(&second, (2, 'z'));
    channel.send(&first, (1, 'c'));
    channel.drop_sender(first);
    channel.drop_sender(second);
    let drained = channel.iterate();
    assert!(drained.ended);
    assert_eq!(drained.items.len(), 6);
    let of_first: Vec<char> = drained.items.iter().filter(|m| m.0 == 1).map(|m| m.1).collect();
    let of_second: Vec<char> = drained.items.iter().filter(|m| m.0 == 2).map(|m| m.1).collect();
    assert_eq!(of_first, vec!['a', 'b', 'c']);
    assert_eq!(of_second, vec!['x', 'y', 'z']);
}

#[test]
fn iterate_takes_what_is_in_flight_and_says_whether_the_stream_ended() {
    let (mut channel, sender) = Channel::<u32>::new();
    channel.send(&sender, 1);
    channel.send(&sender, 2);
    assert_eq!(channel.iterate(), Drained { items: vec![1, 2], ended: false });
    assert_eq!(channel.iterate(), Drained { items: vec![], ended: false });
    channel.send(&sender, 3);
    channel.drop_sender(sender);
    assert_eq!(channel.iterate(), Drained { items: vec![3], ended: true });
    assert_eq!(channel.iterate(), Drained { items: vec![], ended: true });
    assert_eq!(channel.recv(), Attempt::Ready(None));
}
