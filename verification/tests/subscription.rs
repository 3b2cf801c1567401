use courier::commit_log::Index;
use courier::subscription::PendingMessage;
use courier::{Duration, Message, Subscription, Timestamp, Topic};

fn at(millis: i64) -> Timestamp {
    Timestamp::new(1_600_000_000 + millis / 1000, ((millis % 1000) * 1_000_000) as u32)
}

fn topic_with(payloads: &[&str]) -> Topic {
    let mut topic = Topic::new_at("topic", Duration::seconds(60), Duration::seconds(0), at(0));
    for (i, payload) in payloads.iter().enumerate() {
        topic.publish_with(100 + i as u128, at(i as i64), String::from(*payload));
    }
    topic
}

fn subscription_on(topic: &Topic, deadline_millis: i64) -> Subscription {
    Subscription::new_head_at(
        "subscription",
        topic,
        Duration::milliseconds(deadline_millis),
        Duration::seconds(0),
        at(0),
    )
}

#[test]
fn subscription_delivers_in_publish_order() {
    let topic = topic_with(&["a", "b", "c"]);
    let mut subscription = subscription_on(&topic, 1000);
    assert_eq!(0, subscription.next_index());
    for (i, payload) in ["a", "b", "c"].iter().enumerate() {
        let expected = Message {
            id: 100 + i as u128,
            time: at(i as i64),
            tries: 1,
            data: String::from(*payload),
        };
        assert_eq!(Some(expected), subscription.pull_at(&topic, at(10)));
        assert_eq!(i + 1, subscription.next_index());
        assert_eq!(i + 1, subscription.num_pending());
    }
    assert_eq!(None, subscription.pull_at(&topic, at(10)));
    assert_eq!(at(10), subscription.updated);
    assert_eq!(at(0), subscription.created);
}

#[test]
fn subscription_ack_is_accepted_once() {
    let topic = topic_with(&["a"]);
    let mut subscription = subscription_on(&topic, 1000);
    assert!(!subscription.ack_at(100, at(1)));
    subscription.pull_at(&topic, at(2)).unwrap();
    assert!(subscription.ack_at(100, at(3)));
    assert!(!subscription.ack_at(100, at(4)));
    assert_eq!(at(4), subscription.updated);
    assert_eq!(0, subscription.num_pending());
    // Acknowledged in time, the message does not come again.
    assert_eq!(None, subscription.pull_at(&topic, at(100_000)));
    assert!(!subscription.ack_at(100, at(100_001)));
}

#[test]
fn subscription_redelivers_in_the_order_of_sending() {
    let topic = topic_with(&["a", "b", "c"]);
    let mut subscription = subscription_on(&topic, 100);
    assert_eq!("a", subscription.pull_at(&topic, at(10)).unwrap().data);
    assert_eq!("b", subscription.pull_at(&topic, at(20)).unwrap().data);
    // "a" is due again before "c" has been handed out at all.
    let again = subscription.pull_at(&topic, at(110)).unwrap();
    assert_eq!(("a", 2), (again.data.as_str(), again.tries));
    // "b" is not due yet, so the next pull reaches "c".
    let fresh = subscription.pull_at(&topic, at(115)).unwrap();
    assert_eq!(("c", 1), (fresh.data.as_str(), fresh.tries));
    let again = subscription.pull_at(&topic, at(120)).unwrap();
    assert_eq!(("b", 2), (again.data.as_str(), again.tries));
    assert_eq!(None, subscription.pull_at(&topic, at(121)));
    let again = subscription.pull_at(&topic, at(210)).unwrap();
    assert_eq!(("a", 3), (again.data.as_str(), again.tries));
    assert_eq!(3, subscription.num_pending());
    assert_eq!(3, subscription.next_index());
    assert_eq!(vec![102, 100], subscription.ack_many_at(&[102, 7, 100, 102], at(211)));
    assert_eq!(1, subscription.num_pending());
    let again = subscription.pull_at(&topic, at(1000)).unwrap();
    assert_eq!(("b", 3), (again.data.as_str(), again.tries));
    assert_eq!(None, subscription.pull_at(&topic, at(1000)));
}

#[test]
fn subscription_forgets_what_has_left_the_topic() {
    let mut topic = Topic::new_at("topic", Duration::seconds(1), Duration::seconds(0), at(0));
    topic.publish_with(1, at(0), String::from("p"));
    topic.publish_with(2, at(500), String::from("q"));
    let mut subscription = subscription_on(&topic, 10_000);
    assert_eq!("p", subscription.pull_at(&topic, at(600)).unwrap().data);
    assert_eq!(1, subscription.num_pending());
    assert_eq!(1, topic.cleanup_at(at(1200)));
    // The record of "p" goes, and the cursor steps onto what is left.
    assert_eq!("q", subscription.pull_at(&topic, at(1300)).unwrap().data);
    assert_eq!(1, subscription.num_pending());
    assert!(!subscription.ack_at(1, at(1300)));
    assert!(subscription.ack_at(2, at(1300)));
    assert_eq!(2, subscription.next_index());
}

#[test]
fn subscription_at_the_tail_sees_only_what_comes() {
    let mut topic = topic_with(&["a", "b"]);
    let mut subscription = Subscription::new_tail_at(
        "subscription",
        &topic,
        Duration::seconds(1),
        Duration::seconds(0),
        at(5),
    );
    assert_eq!(2, subscription.next_index());
    assert_eq!(None, subscription.pull_at(&topic, at(6)));
    topic.publish_with(9, at(7), String::from("c"));
    assert_eq!("c", subscription.pull_at(&topic, at(8)).unwrap().data);
    assert_eq!(3, subscription.next_index());
}

#[test]
fn subscription_settings() {
    let topic = topic_with(&[]);
    let mut subscription = subscription_on(&topic, 1000);
    assert_eq!("subscription", subscription.name);
    assert_eq!("topic", subscription.topic);
    subscription.set_ack_deadline_at(Duration::seconds(5), at(1));
    assert_eq!((Duration::seconds(5), at(1)), (subscription.ack_deadline, subscription.updated));
    subscription.set_ttl_at(Duration::seconds(6), at(2));
    assert_eq!((Duration::seconds(6), at(2)), (subscription.ttl, subscription.updated));
    subscription.update_at(at(3));
    assert_eq!(at(3), subscription.updated);
    assert_eq!(at(0), subscription.created);
    assert_eq!(Vec::<u128>::new(), subscription.ack_many_at(&[], at(4)));
    assert_eq!(at(3), subscription.updated);
}

#[test]
fn pending_message_records_a_delivery() {
    let record = PendingMessage::new(7, 2, Index { at: Some(3) }, at(9));
    assert_eq!(
        PendingMessage { time_sent: at(9), message_id: 7, tries: 2, index: Index { at: Some(3) } },
        record
    );
}

#[test]
fn subscription_without_its_topic_hands_out_nothing() {
    let topic = topic_with(&["a", "b"]);
    let mut subscription = subscription_on(&topic, 100);
    assert_eq!("a", subscription.pull_at(&topic, at(10)).unwrap().data);
    assert!(!subscription.is_orphaned());
    subscription.orphan();
    assert!(subscription.is_orphaned());
    assert_eq!(1, subscription.num_pending());
    assert_eq!(at(10), subscription.updated);
    subscription.pull_orphaned_at(at(500));
    assert_eq!(at(500), subscription.updated);
    assert_eq!(0, subscription.num_pending());
    assert_eq!(1, subscription.next_index());
    assert!(!subscription.ack_at(100, at(501)));
    subscription.pull_orphaned();
    assert!(subscription.updated > at(501));
    assert_eq!(0, subscription.num_pending());
    assert!(subscription.is_orphaned());
}
