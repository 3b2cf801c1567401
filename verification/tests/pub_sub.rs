use courier::http_protocol::types::RawMessage;
use courier::{Duration, Message, Subscription, SubscriptionMeta, Timestamp, Topic, TopicMeta};

fn at(millis: i64) -> Timestamp {
    Timestamp::new(1_600_000_000 + millis / 1000, ((millis % 1000) * 1_000_000) as u32)
}

#[test]
fn pub_sub_create() {
    let raw_message = RawMessage::new(String::from("abc"));
    assert_eq!(raw_message.data, String::from("abc"));
    let message = Message::new(String::from("123"));
    assert_eq!(message.data, String::from("123"));
    let message = Message::from(raw_message);
    assert_eq!(message.data, String::from("abc"));
    let message = Message::default();
    assert_eq!(message.data, String::from(""));
    let mut topic = Topic::new("topic", Duration::seconds(60), Duration::seconds(0));
    topic.set_message_ttl(Duration::seconds(120));
    let topic_meta = TopicMeta::from(&topic);
    assert_eq!(topic_meta.name, String::from("topic"));
    assert_eq!(topic_meta.message_ttl, 120);
    let mut subscription =
        Subscription::new_head("subscription", &topic, Duration::seconds(60), Duration::seconds(0));
    subscription.set_ack_deadline(Duration::seconds(120));
    let subscription_meta = SubscriptionMeta::from(&subscription);
    assert_eq!(subscription_meta.name, String::from("subscription"));
    assert_eq!(subscription_meta.topic, String::from("topic"));
    assert_eq!(subscription_meta.ack_deadline, 120);
}

#[test]
fn pub_sub_basic() {
    let mut topic = Topic::new_at("topic", Duration::seconds(60), Duration::seconds(0), at(0));
    let mut subscription = Subscription::new_head_at(
        "subscription",
        &topic,
        Duration::milliseconds(10),
        Duration::seconds(0),
        at(0),
    );
    topic.publish_with(1, at(0), String::from("a"));
    topic.publish_with(2, at(0), String::from("b"));
    assert_eq!(2, topic.len());
    let message = subscription.pull_at(&topic, at(1)).unwrap();
    assert_eq!(String::from("a"), message.data);
    subscription.ack_at(message.id, at(1));
    let message = subscription.pull_at(&topic, at(2)).unwrap();
    assert_eq!(None, subscription.pull_at(&topic, at(2)));
    subscription.ack_many_at(&[message.id], at(2));
    assert_eq!(String::from("b"), message.data);
    assert_eq!(None, subscription.pull_at(&topic, at(3)));
    assert_eq!(None, subscription.pull_at(&topic, at(23)));

    let mut subscription = Subscription::new_tail_at(
        "subscription",
        &topic,
        Duration::milliseconds(10),
        Duration::seconds(0),
        at(23),
    );
    assert_eq!(None, subscription.pull_at(&topic, at(23)));

    topic.publish_with(3, at(24), String::from("c"));
    let message = subscription.pull_at(&topic, at(24)).unwrap();
    assert_eq!(String::from("c"), message.data);
    let message = subscription.pull_at(&topic, at(44)).unwrap();
    assert_eq!(String::from("c"), message.data);
    subscription.ack_many_at(&[message.id], at(44));
    assert_eq!(None, subscription.pull_at(&topic, at(64)));

    topic.publish_with(4, at(64), String::from("d"));
    topic.set_message_ttl_at(Duration::milliseconds(10), at(64));
    topic.cleanup_at(at(84));
    assert_eq!(None, subscription.pull_at(&topic, at(84)));
}

#[test]
fn pub_sub_with_the_system_clock() {
    let mut topic = Topic::new("topic", Duration::seconds(60), Duration::seconds(0));
    assert!(topic.empty());
    assert!(topic.created.secs > 1_500_000_000);
    assert_eq!(topic.created, topic.updated);
    let mut subscription =
        Subscription::new_head("subscription", &topic, Duration::seconds(60), Duration::seconds(0));
    let a = topic.publish(String::from("a"));
    let b = topic.publish(String::from("b"));
    assert_ne!(a, b);
    // Identifiers are version 4 UUIDs of the RFC variant.
    assert_eq!(4, (a >> 76) & 0xf);
    assert_eq!(2, (a >> 62) & 0x3);
    assert_eq!(4, (b >> 76) & 0xf);
    assert_eq!(2, (b >> 62) & 0x3);
    assert_eq!(2, topic.len());
    assert!(topic.updated >= topic.created);
    let message = subscription.pull(&topic).unwrap();
    assert_eq!(a, message.id);
    assert_eq!(1, message.tries);
    assert_eq!(String::from("a"), message.data);
    assert_eq!(1, subscription.num_pending());
    assert!(subscription.ack(a));
    assert!(!subscription.ack(a));
    assert_eq!(0, subscription.num_pending());
    let message = subscription.pull(&topic).unwrap();
    assert_eq!(b, message.id);
    assert_eq!(vec![b], subscription.ack_many(&[a, b, b]));
    assert_eq!(None, subscription.pull(&topic));
    assert_eq!(2, subscription.next_index());
    // An hour is not over yet.
    assert_eq!(0, topic.cleanup());
    subscription.set_ttl(Duration::seconds(5));
    subscription.update();
    topic.set_ttl(Duration::seconds(7));
    topic.update();
    assert_eq!(5, SubscriptionMeta::from(&subscription).ttl);
    assert_eq!(7, TopicMeta::from(&topic).ttl);
}

#[test]
fn durations_round_toward_zero() {
    assert_eq!(1, Duration::milliseconds(1999).num_seconds());
    assert_eq!(-1, Duration::milliseconds(-1999).num_seconds());
    assert_eq!(0, Duration::milliseconds(-999).num_seconds());
    assert_eq!(60, Duration::seconds(60).num_seconds());
    assert_eq!(60_000, Duration::seconds(60).num_milliseconds());
    assert_eq!(-7_000_000_000, Duration::seconds(-7).nanos());
    assert!(Duration::zero().is_zero());
    assert!(!Duration::milliseconds(1).is_zero());
    assert_eq!(
        9_223_372_036_854_775,
        Duration::seconds(9_223_372_036_854_775).num_seconds()
    );
}

#[test]
fn timestamps_subtract_exactly() {
    let early = Timestamp::new(10, 999_999_999);
    let late = Timestamp::new(11, 1);
    assert_eq!(2, late.nanos_since(&early));
    assert_eq!(-2, early.nanos_since(&late));
    assert_eq!(0, late.nanos_since(&late));
    let first = Timestamp::new(i64::MIN, 0);
    let last = Timestamp::new(i64::MAX, u32::MAX);
    assert_eq!(
        (i64::MAX as i128 - i64::MIN as i128) * 1_000_000_000 + u32::MAX as i128,
        last.nanos_since(&first)
    );
    assert!(courier::time::has_elapsed(&late, &early, &Duration::zero()));
    assert!(!courier::time::has_elapsed(&at(10), &at(0), &Duration::milliseconds(10)));
    assert!(courier::time::has_elapsed(&at(11), &at(0), &Duration::milliseconds(10)));
    assert!(courier::time::is_within(&at(9), &at(0), &Duration::milliseconds(10)));
    assert!(!courier::time::is_within(&at(10), &at(0), &Duration::milliseconds(10)));
    assert!(!courier::time::stale(&Duration::zero(), &at(0), &at(1_000_000)));
    assert!(courier::time::stale(&Duration::seconds(1), &at(0), &at(1001)));
    assert!(!courier::time::stale(&Duration::seconds(1), &at(0), &at(1000)));
}

#[test]
fn topic_cleanup_removes_what_has_expired() {
    let mut topic = Topic::new_at("topic", Duration::seconds(1), Duration::seconds(0), at(0));
    topic.publish_with(1, at(0), String::from("a"));
    topic.publish_with(2, at(500), String::from("b"));
    topic.publish_with(3, at(900), String::from("c"));
    assert_eq!(at(900), topic.updated);
    assert_eq!(0, topic.cleanup_at(at(1000)));
    assert_eq!(1, topic.cleanup_at(at(1001)));
    assert_eq!(2, topic.len());
    assert_eq!(0, topic.cleanup_at(at(1500)));
    assert_eq!(2, topic.cleanup_at(at(5000)));
    assert!(topic.empty());
    // Cleaning up does not touch the topic.
    assert_eq!(at(900), topic.updated);
    assert!(topic.has_room());
}

#[test]
fn topic_without_message_ttl_keeps_everything() {
    let mut topic = Topic::new_at("topic", Duration::seconds(0), Duration::seconds(0), at(0));
    topic.publish_with(1, at(0), String::from("a"));
    topic.publish_with(2, at(1), String::from("b"));
    assert_eq!(0, topic.cleanup_at(at(1_000_000_000)));
    assert_eq!(2, topic.len());
    topic.set_message_ttl_at(Duration::seconds(1), at(2));
    assert_eq!(2, topic.cleanup_at(at(1_000_000_000)));
    assert_eq!(0, topic.len());
}
