use lokey::channel::ChannelState;
use lokey::pubsub::{PubSubState, WaitResult};

#[test]
fn channel_is_first_in_first_out() {
    let mut channel = ChannelState::new();
    assert_eq!(channel.poll_receive(), None::<u8>);
    channel.send(1u8);
    channel.send(2u8);
    assert_eq!(channel.poll_receive(), Some(1));
    channel.send(3u8);
    assert_eq!(channel.poll_receive(), Some(2));
    assert_eq!(channel.poll_receive(), Some(3));
    assert_eq!(channel.poll_receive(), None);
}

#[test]
fn publish_without_subscribers_is_dropped() {
    let mut state = PubSubState::<u32>::new();
    assert!(!state.publish(5));
    assert!(state.is_empty());
}

#[test]
fn every_subscriber_reads_every_message_once() {
    let mut state = PubSubState::<u32>::new();
    let mut a = state.subscribe();
    let mut b = state.subscribe();
    assert!(state.publish(10));
    assert!(state.publish(11));
    assert_eq!(state.len(), 2);
    assert_eq!(state.available(a), 2);

    assert!(matches!(state.get_message(a), Some(WaitResult::Message(10))));
    a += 1;
    assert_eq!(state.len(), 2);
    assert!(matches!(state.get_message(b), Some(WaitResult::Message(10))));
    b += 1;
    assert_eq!(state.len(), 1);
    assert!(matches!(state.get_message(a), Some(WaitResult::Message(11))));
    a += 1;
    assert!(state.get_message(a).is_none());
    assert!(matches!(state.get_message(b), Some(WaitResult::Message(11))));
    assert!(state.is_empty());
}

#[test]
fn subscriber_lags_after_clear() {
    let mut state = PubSubState::<u32>::new();
    let a = state.subscribe();
    assert!(state.publish(1));
    assert!(state.publish(2));
    state.clear();
    assert!(state.is_empty());
    assert!(matches!(state.get_message(a), Some(WaitResult::Lagged(2))));
}

#[test]
fn unregistered_subscriber_releases_its_messages() {
    let mut state = PubSubState::<u32>::new();
    let a = state.subscribe();
    let mut b = state.subscribe();
    assert!(state.publish(7));
    state.unregister_subscriber(a);
    assert_eq!(state.len(), 1);
    assert!(matches!(state.get_message(b), Some(WaitResult::Message(7))));
    b += 1;
    assert!(state.is_empty());
    assert_eq!(state.available(b), 0);
}

#[test]
fn receive_moves_the_subscriber_on() {
    let mut state = PubSubState::<u32>::new();
    let mut a = state.subscribe();
    assert!(state.receive(&mut a).is_none());
    assert_eq!(a, 0);
    assert!(state.publish(3));
    assert!(state.publish(4));
    assert!(matches!(state.receive(&mut a), Some(WaitResult::Message(3))));
    assert_eq!(a, 1);
    let mut b = state.subscribe();
    assert_eq!(b, 2);
    assert!(state.receive(&mut b).is_none());
    assert!(matches!(state.receive(&mut a), Some(WaitResult::Message(4))));
    assert_eq!(a, 2);
    assert!(state.is_empty());
}

#[test]
fn lagging_subscriber_skips_to_the_front() {
    let mut state = PubSubState::<u32>::new();
    let mut a = state.subscribe();
    assert!(state.publish(1));
    state.clear();
    assert!(state.publish(2));
    assert!(matches!(state.receive(&mut a), Some(WaitResult::Lagged(1))));
    assert_eq!(a, 1);
    assert!(matches!(state.receive(&mut a), Some(WaitResult::Message(2))));
}
