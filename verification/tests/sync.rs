use stub_resolver::sync::Channel;
use stub_resolver::sync::RecvError;
use stub_resolver::sync::TryRecvError;

#[test]
fn messages_come_out_in_the_order_of_sending() {
    let mut c: Channel<u32> = Channel::new(false);
    assert!(c.add_sender());
    for i in 0..5 {
        assert_eq!(c.send(i), Ok(false));
    }
    assert_eq!(c.len(), 5);
    for i in 0..5 {
        assert_eq!(c.try_recv(), Ok(i));
    }
    assert_eq!(c.try_recv(), Err(TryRecvError::Empty));
}

#[test]
fn every_send_asks_for_a_wakeup_when_the_channel_notifies() {
    let mut c: Channel<&str> = Channel::new(true);
    assert!(c.add_sender());
    assert_eq!(c.send("a"), Ok(true));
    assert_eq!(c.send("b"), Ok(true));
    assert_eq!(c.try_recv(), Ok("a"));
    assert_eq!(c.send("c"), Ok(true));
}

#[test]
fn send_fails_only_when_the_receiver_is_gone() {
    let mut c: Channel<u8> = Channel::new(true);
    // No sender is counted, and the send still succeeds.
    assert_eq!(c.send(1), Ok(true));
    c.drop_receiver();
    assert_eq!(c.len(), 0);
    assert_eq!(c.send(2), Err(2));
    assert_eq!(c.len(), 0);
}

#[test]
fn empty_and_disconnected_are_told_apart() {
    let mut c: Channel<u8> = Channel::new(false);
    assert_eq!(c.try_recv(), Err(TryRecvError::Disconnected));
    assert!(c.add_sender());
    assert!(c.add_sender());
    assert_eq!(c.try_recv(), Err(TryRecvError::Empty));
    c.drop_sender();
    assert_eq!(c.try_recv(), Err(TryRecvError::Empty));
    c.drop_sender();
    assert_eq!(c.try_recv(), Err(TryRecvError::Disconnected));
    c.drop_sender();
    assert_eq!(c.try_recv(), Err(TryRecvError::Disconnected));
}

#[test]
fn what_was_sent_is_received_after_the_senders_are_gone() {
    let mut c: Channel<u8> = Channel::new(false);
    assert!(c.add_sender());
    assert_eq!(c.send(7), Ok(false));
    c.drop_sender();
    assert_eq!(c.try_recv(), Ok(7));
    assert_eq!(c.try_recv(), Err(TryRecvError::Disconnected));
}

#[test]
fn recv_now_says_when_to_wait() {
    let mut c: Channel<u8> = Channel::new(false);
    assert!(c.add_sender());
    assert_eq!(c.recv_now(), None);
    assert_eq!(c.send(3), Ok(false));
    assert_eq!(c.recv_now(), Some(Ok(3)));
    assert_eq!(c.recv_now(), None);
    c.drop_sender();
    assert_eq!(c.recv_now(), Some(Err(RecvError)));
}
