use chat_relay::bus::BroadcastBus;
use chat_relay::bus::RecvOutcome;

fn expect_message(out: RecvOutcome) -> String {
    match out {
        RecvOutcome::Message(m) => m,
        RecvOutcome::Lagged(n) => panic!("expected a message, got a lag of {}", n),
        RecvOutcome::Empty => panic!("expected a message, got nothing"),
    }
}

#[test]
fn every_subscriber_receives_in_publish_order() {
    let mut bus = BroadcastBus::new(100);
    let a = bus.subscribe();
    let b = bus.subscribe();
    bus.publish(String::from("one"));
    bus.publish(String::from("two"));
    assert_eq!(expect_message(bus.recv(a)), "one");
    assert_eq!(expect_message(bus.recv(a)), "two");
    assert!(matches!(bus.recv(a), RecvOutcome::Empty));
    assert_eq!(expect_message(bus.recv(b)), "one");
    assert_eq!(expect_message(bus.recv(b)), "two");
    assert!(matches!(bus.recv(b), RecvOutcome::Empty));
}

#[test]
fn late_subscriber_sees_no_replay() {
    let mut bus = BroadcastBus::new(100);
    let a = bus.subscribe();
    bus.publish(String::from("early"));
    let b = bus.subscribe();
    bus.publish(String::from("late"));
    assert_eq!(expect_message(bus.recv(a)), "early");
    assert_eq!(expect_message(bus.recv(a)), "late");
    assert_eq!(expect_message(bus.recv(b)), "late");
    assert!(matches!(bus.recv(b), RecvOutcome::Empty));
}

#[test]
fn slow_subscriber_lags_alone() {
    let mut bus = BroadcastBus::new(2);
    let prompt = bus.subscribe();
    let slow = bus.subscribe();
    bus.publish(String::from("m1"));
    assert_eq!(expect_message(bus.recv(prompt)), "m1");
    bus.publish(String::from("m2"));
    assert_eq!(expect_message(bus.recv(prompt)), "m2");
    bus.publish(String::from("m3"));
    assert_eq!(expect_message(bus.recv(prompt)), "m3");
    assert!(matches!(bus.recv(prompt), RecvOutcome::Empty));

    match bus.recv(slow) {
        RecvOutcome::Lagged(n) => assert_eq!(n, 1),
        _ => panic!("the slow subscriber should observe its lag first"),
    }
    assert_eq!(expect_message(bus.recv(slow)), "m2");
    assert_eq!(expect_message(bus.recv(slow)), "m3");
    assert!(matches!(bus.recv(slow), RecvOutcome::Empty));
}

#[test]
fn lag_accumulates_per_dropped_message() {
    let mut bus = BroadcastBus::new(1);
    let slow = bus.subscribe();
    bus.publish(String::from("a"));
    bus.publish(String::from("b"));
    bus.publish(String::from("c"));
    match bus.recv(slow) {
        RecvOutcome::Lagged(n) => assert_eq!(n, 2),
        _ => panic!("expected a lag report"),
    }
    assert_eq!(expect_message(bus.recv(slow)), "c");
}

#[test]
fn unsubscribed_slot_receives_nothing() {
    let mut bus = BroadcastBus::new(10);
    let a = bus.subscribe();
    let b = bus.subscribe();
    bus.publish(String::from("before"));
    bus.unsubscribe(a);
    bus.publish(String::from("after"));
    assert!(matches!(bus.recv(a), RecvOutcome::Empty));
    assert_eq!(expect_message(bus.recv(b)), "before");
    assert_eq!(expect_message(bus.recv(b)), "after");
}

#[test]
fn empty_bus_has_nothing_pending() {
    let mut bus = BroadcastBus::new(5);
    let a = bus.subscribe();
    assert!(matches!(bus.recv(a), RecvOutcome::Empty));
}
