use rediodb::pubsub::{PubSub, RecvOutcome};

fn chans(names: &[&str]) -> Vec<String> {
    names.iter().map(|n| n.to_string()).collect()
}

#[test]
fn test_pubsub() {
    let mut ps = PubSub::new();
    let sub1 = ps.subscribe(chans(&["general"])).unwrap();
    let sub2 = ps.subscribe(chans(&["general"])).unwrap();
    let message = "Hello, subscribers!".to_string();
    ps.publish("general", &message);
    assert_eq!(ps.recv(sub1), RecvOutcome::Message(message.clone()));
    assert_eq!(ps.recv(sub2), RecvOutcome::Message(message.clone()));
    assert_eq!(ps.recv(sub1), RecvOutcome::Empty);
    assert_eq!(ps.recv(sub2), RecvOutcome::Empty);
}

#[test]
fn delivery_is_scoped_to_the_channel() {
    let mut ps = PubSub::new();
    let on_c = ps.subscribe(chans(&["c"])).unwrap();
    let on_d = ps.subscribe(chans(&["d"])).unwrap();
    ps.publish("c", "m");
    assert_eq!(ps.recv(on_c), RecvOutcome::Message("m".to_string()));
    assert_eq!(ps.recv(on_d), RecvOutcome::Empty);
}

#[test]
fn pattern_subscriptions_match_by_glob() {
    let mut ps = PubSub::new();
    let sub = ps.subscribe_pattern("news.*").unwrap();
    ps.publish("news.sports", "goal");
    ps.publish("weather", "rain");
    assert_eq!(ps.recv(sub), RecvOutcome::Message("goal".to_string()));
    assert_eq!(ps.recv(sub), RecvOutcome::Empty);
    let all = ps.subscribe_pattern("*").unwrap();
    ps.publish("anything", "x");
    assert_eq!(ps.recv(all), RecvOutcome::Message("x".to_string()));
}

#[test]
fn overfilled_buffer_reports_lag_and_drops_oldest() {
    let mut ps = PubSub::with_capacity(2);
    let sub = ps.subscribe(chans(&["c"])).unwrap();
    ps.publish("c", "m1");
    ps.publish("c", "m2");
    ps.publish("c", "m3");
    assert_eq!(ps.recv(sub), RecvOutcome::Lagged(1));
    assert_eq!(ps.recv(sub), RecvOutcome::Message("m2".to_string()));
    assert_eq!(ps.recv(sub), RecvOutcome::Message("m3".to_string()));
    assert_eq!(ps.recv(sub), RecvOutcome::Empty);
}

#[test]
fn one_subscriber_lagging_does_not_affect_another() {
    let mut ps = PubSub::with_capacity(1);
    let fast = ps.subscribe(chans(&["c"])).unwrap();
    let slow = ps.subscribe(chans(&["c"])).unwrap();
    ps.publish("c", "a");
    assert_eq!(ps.recv(fast), RecvOutcome::Message("a".to_string()));
    ps.publish("c", "b");
    assert_eq!(ps.recv(fast), RecvOutcome::Message("b".to_string()));
    assert_eq!(ps.recv(slow), RecvOutcome::Lagged(1));
    assert_eq!(ps.recv(slow), RecvOutcome::Message("b".to_string()));
}

#[test]
fn unsubscribe_closes_the_handle() {
    let mut ps = PubSub::new();
    let sub = ps.subscribe(chans(&["c"])).unwrap();
    assert!(ps.unsubscribe(sub));
    assert!(!ps.unsubscribe(sub));
    ps.publish("c", "m");
    assert_eq!(ps.recv(sub), RecvOutcome::Closed);
}

#[test]
fn multi_channel_subscription_hears_each() {
    let mut ps = PubSub::new();
    let sub = ps.subscribe(chans(&["a", "b"])).unwrap();
    ps.publish("a", "1");
    ps.publish("b", "2");
    ps.publish("c", "3");
    assert_eq!(ps.recv(sub), RecvOutcome::Message("1".to_string()));
    assert_eq!(ps.recv(sub), RecvOutcome::Message("2".to_string()));
    assert_eq!(ps.recv(sub), RecvOutcome::Empty);
}
