use mini_redis::service::S;

#[test]
fn publish_to_unseen_channel_delivers_to_nobody() {
    let mut s = S::new();
    assert_eq!(s.publish(&"c".to_string(), &"m".to_string()), 0);
}

#[test]
fn publish_leaves_no_backlog_for_later_subscribers() {
    let mut s = S::new();
    // Make the channel exist, then drop the only subscriber.
    let early = s.subscribe(&vec!["c".to_string()]);
    s.unsubscribe(&early);
    assert_eq!(s.publish(&"c".to_string(), &"early".to_string()), 0);
    let hs = s.subscribe(&vec!["c".to_string()]);
    assert_eq!(s.try_next(&hs), None);
}

#[test]
fn fan_out_reaches_every_subscriber() {
    let mut s = S::new();
    let h1 = s.subscribe(&vec!["c".to_string()]);
    let h2 = s.subscribe(&vec!["c".to_string()]);
    let h3 = s.subscribe(&vec!["c".to_string()]);
    assert_eq!(s.publish(&"c".to_string(), &"msg".to_string()), 3);
    assert_eq!(s.try_next(&h1), Some("msg".to_string()));
    assert_eq!(s.try_next(&h2), Some("msg".to_string()));
    assert_eq!(s.try_next(&h3), Some("msg".to_string()));
}

#[test]
fn race_on_two_channels_returns_the_message_exactly_once() {
    let mut s = S::new();
    let hs = s.subscribe(&vec!["a".to_string(), "b".to_string()]);
    assert_eq!(s.publish(&"b".to_string(), &"ping-b".to_string()), 1);
    assert_eq!(s.try_next(&hs), Some("ping-b".to_string()));
    assert_eq!(s.try_next(&hs), None);
}

#[test]
fn subscriber_receives_only_messages_published_after_attaching() {
    let mut s = S::new();
    let h1 = s.subscribe(&vec!["c".to_string()]);
    assert_eq!(s.publish(&"c".to_string(), &"first".to_string()), 1);
    let h2 = s.subscribe(&vec!["c".to_string()]);
    assert_eq!(s.try_next(&h2), None);
    assert_eq!(s.try_next(&h1), Some("first".to_string()));
}

#[test]
fn delivery_order_matches_publish_order() {
    let mut s = S::new();
    let hs = s.subscribe(&vec!["c".to_string()]);
    s.publish(&"c".to_string(), &"one".to_string());
    s.publish(&"c".to_string(), &"two".to_string());
    assert_eq!(s.try_next(&hs), Some("one".to_string()));
    assert_eq!(s.try_next(&hs), Some("two".to_string()));
    assert_eq!(s.try_next(&hs), None);
}

#[test]
fn full_buffer_drops_the_oldest_message() {
    let mut s = S::new();
    let hs = s.subscribe(&vec!["c".to_string()]);
    // One more publish than the buffer holds: the first message gives way.
    for i in 0..17 {
        s.publish(&"c".to_string(), &format!("m{}", i));
    }
    assert_eq!(s.try_next(&hs), Some("m1".to_string()));
    let mut last = None;
    while let Some(m) = s.try_next(&hs) {
        last = Some(m);
    }
    assert_eq!(last, Some("m16".to_string()));
}

#[test]
fn subscribe_to_no_channels_never_yields() {
    let mut s = S::new();
    let hs = s.subscribe(&vec![]);
    assert!(hs.is_empty());
    s.publish(&"c".to_string(), &"m".to_string());
    assert_eq!(s.try_next(&hs), None);
}

#[test]
fn unsubscribe_stops_delivery_and_counting() {
    let mut s = S::new();
    let hs = s.subscribe(&vec!["c".to_string()]);
    s.unsubscribe(&hs);
    assert_eq!(s.publish(&"c".to_string(), &"m".to_string()), 0);
    assert_eq!(s.try_next(&hs), None);
}
