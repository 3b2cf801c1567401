use courier::{Duration, Message, Metrics, Registry, Timestamp};

fn at(millis: i64) -> Timestamp {
    Timestamp::new(1_600_000_000 + millis / 1000, ((millis % 1000) * 1_000_000) as u32)
}

fn secs(seconds: i64) -> Duration {
    Duration::seconds(seconds)
}

fn data(messages: &[Message]) -> Vec<String> {
    messages.iter().map(|m| m.data.clone()).collect()
}

fn strings(values: &[&str]) -> Vec<String> {
    values.iter().map(|v| String::from(*v)).collect()
}

#[test]
fn registry_basic_ack() {
    let mut registry = Registry::new_at(at(0));
    registry.create_topic_at("T", secs(60), secs(0), at(0));
    registry.create_subscription_at("S", "T", secs(60), secs(0), false, at(0)).unwrap();
    let ids = registry.publish_at("T", strings(&["a", "b"]), at(1)).unwrap();
    assert_eq!(2, ids.len());

    let messages = registry.pull_at("S", 1, at(2)).unwrap();
    assert_eq!(1, messages.len());
    assert_eq!(String::from("a"), messages[0].data);
    assert_eq!(1, messages[0].tries);
    assert_eq!(ids[0], messages[0].id);
    assert_eq!(at(1), messages[0].time);
    assert_eq!(Some(vec![ids[0]]), registry.ack_at("S", &[ids[0]], at(3)));

    let messages = registry.pull_at("S", 10, at(4)).unwrap();
    assert_eq!(vec![String::from("b")], data(&messages));
    assert_eq!(Some(vec![ids[1]]), registry.ack_at("S", &[ids[1]], at(5)));

    assert_eq!(Some(vec![]), registry.pull_at("S", 10, at(6)));
}

#[test]
fn registry_redelivery() {
    let mut registry = Registry::new_at(at(0));
    registry.create_topic_at("T", secs(60), secs(0), at(0));
    registry.create_subscription_at("S", "T", secs(1), secs(0), true, at(0)).unwrap();
    let ids = registry.publish_at("T", strings(&["x"]), at(0)).unwrap();

    let messages = registry.pull_at("S", 1, at(0)).unwrap();
    assert_eq!(vec![String::from("x")], data(&messages));
    assert_eq!(1, messages[0].tries);
    // Just before the deadline nothing is due.
    assert_eq!(Some(vec![]), registry.pull_at("S", 1, at(999)));
    let messages = registry.pull_at("S", 1, at(1200)).unwrap();
    assert_eq!(vec![String::from("x")], data(&messages));
    assert_eq!(2, messages[0].tries);
    assert_eq!(ids[0], messages[0].id);
    assert_eq!(Some(vec![ids[0]]), registry.ack_at("S", &ids, at(1300)));
    assert_eq!(Some(vec![]), registry.pull_at("S", 1, at(5000)));
}

#[test]
fn registry_message_expiry_while_pending() {
    let mut registry = Registry::new_at(at(0));
    registry.create_topic_at("T", secs(1), secs(0), at(0));
    registry.create_subscription_at("S", "T", secs(10), secs(0), true, at(0)).unwrap();
    registry.publish_at("T", strings(&["p"]), at(0)).unwrap();

    let messages = registry.pull_at("S", 1, at(0)).unwrap();
    assert_eq!(vec![String::from("p")], data(&messages));
    assert_eq!(1, messages[0].tries);
    assert_eq!(1, registry.metrics().subscriptions[0].1.pending);

    assert_eq!((0, 0, 1), registry.cleanup_at(at(2000), 0));
    assert_eq!(Some(vec![]), registry.pull_at("S", 1, at(2000)));
    assert_eq!(0, registry.metrics().subscriptions[0].1.pending);
    assert_eq!(Some(vec![]), registry.pull_at("S", 1, at(20_000)));
    // The delivery is forgotten, so its acknowledgement is not accepted.
    assert_eq!(Some(vec![]), registry.ack_at("S", &[messages[0].id], at(20_000)));
}

#[test]
fn registry_historical_and_tail() {
    let mut registry = Registry::new_at(at(0));
    registry.create_topic_at("T", secs(60), secs(0), at(0));
    registry.publish_at("T", strings(&["1", "2", "3"]), at(0)).unwrap();
    registry.create_subscription_at("S_hist", "T", secs(60), secs(0), true, at(1)).unwrap();
    registry.create_subscription_at("S_tail", "T", secs(60), secs(0), false, at(1)).unwrap();

    let messages = registry.pull_at("S_hist", 10, at(2)).unwrap();
    assert_eq!(strings(&["1", "2", "3"]), data(&messages));
    assert_eq!(Some(vec![]), registry.pull_at("S_tail", 10, at(2)));

    registry.publish_at("T", strings(&["4"]), at(3)).unwrap();
    assert_eq!(strings(&["4"]), data(&registry.pull_at("S_hist", 10, at(4)).unwrap()));
    assert_eq!(strings(&["4"]), data(&registry.pull_at("S_tail", 10, at(4)).unwrap()));
}

#[test]
fn registry_idempotent_create() {
    let mut registry = Registry::new_at(at(0));
    let (created, first) = registry.create_topic_at("T", secs(10), secs(0), at(1));
    assert!(created);
    assert_eq!(String::from("T"), first.name);
    assert_eq!(10, first.message_ttl);
    assert_eq!(at(1), first.created);
    let (created, second) = registry.create_topic_at("T", secs(30), secs(5), at(2));
    assert!(!created);
    assert_eq!(first, second);
    assert_eq!(10, second.message_ttl);
    assert_eq!(Some(first), registry.get_topic("T"));
    assert_eq!(1, registry.metrics().topics_all_time);

    let (created, first) =
        registry.create_subscription_at("S", "T", secs(7), secs(0), true, at(3)).unwrap();
    assert!(created);
    let (created, second) =
        registry.create_subscription_at("S", "T", secs(9), secs(9), false, at(4)).unwrap();
    assert!(!created);
    assert_eq!(first, second);
    assert_eq!(7, second.ack_deadline);
    assert_eq!(1, registry.metrics().subscriptions_all_time);
    assert_eq!(Some(strings(&["S"])), registry.list_topic_subscriptions("T"));
}

#[test]
fn registry_cascaded_delete() {
    let mut registry = Registry::new_at(at(0));
    registry.create_topic_at("T", secs(60), secs(0), at(0));
    registry.create_topic_at("U", secs(60), secs(0), at(0));
    registry.create_subscription_at("A", "T", secs(60), secs(0), true, at(0)).unwrap();
    registry.create_subscription_at("B", "T", secs(60), secs(0), true, at(0)).unwrap();
    registry.create_subscription_at("C", "U", secs(60), secs(0), true, at(0)).unwrap();

    assert!(registry.delete_topic("T"));
    assert_eq!(None, registry.get_subscription("A"));
    assert_eq!(None, registry.get_subscription("B"));
    assert!(registry.get_subscription("C").is_some());
    assert_eq!(None, registry.get_topic("T"));
    assert_eq!(None, registry.pull_at("A", 1, at(1)));
    assert_eq!(None, registry.ack_at("B", &[], at(1)));
    assert_eq!(None, registry.list_topic_subscriptions("T"));
    assert_eq!(1, registry.list_subscriptions().len());
    assert_eq!(1, registry.metrics().subscriptions.len());
    assert!(!registry.delete_topic("T"));
    assert!(!registry.delete_subscription("A"));
    assert!(registry.delete_subscription("C"));
    assert_eq!(Some(vec![]), registry.list_topic_subscriptions("U"));
}

#[test]
fn registry_links_the_name_to_the_topic_it_is_asked_on() {
    let mut registry = Registry::new_at(at(0));
    registry.create_topic_at("A", secs(60), secs(0), at(0));
    registry.create_topic_at("B", secs(60), secs(0), at(0));
    registry.create_subscription_at("S", "A", secs(60), secs(0), true, at(0)).unwrap();
    // The subscription exists, on A; asking for it on B links its name there too.
    let (created, meta) =
        registry.create_subscription_at("S", "B", secs(60), secs(0), true, at(1)).unwrap();
    assert!(!created);
    assert_eq!(String::from("A"), meta.topic);
    assert_eq!(Some(strings(&["S"])), registry.list_topic_subscriptions("A"));
    assert_eq!(Some(strings(&["S"])), registry.list_topic_subscriptions("B"));
    assert!(registry.delete_topic("B"));
    assert_eq!(None, registry.get_subscription("S"));
    assert_eq!(Some(vec![]), registry.list_topic_subscriptions("A"));
}

#[test]
fn registry_publish_returns_ids_in_order() {
    let mut registry = Registry::new_at(at(0));
    assert_eq!(None, registry.publish_at("T", strings(&["a"]), at(0)));
    registry.create_topic_at("T", secs(60), secs(0), at(0));
    registry.create_subscription_at("S", "T", secs(60), secs(0), true, at(0)).unwrap();
    assert!(registry.can_publish("T", 5));
    assert!(registry.can_publish("nowhere", usize::MAX));
    let payloads = strings(&["a", "b", "c", "d", "e"]);
    let ids = registry.publish_at("T", payloads.clone(), at(1)).unwrap();
    assert_eq!(5, ids.len());
    let messages = registry.pull_at("S", 5, at(2)).unwrap();
    assert_eq!(payloads, data(&messages));
    assert_eq!(ids, messages.iter().map(|m| m.id).collect::<Vec<u128>>());
    for (i, id) in ids.iter().enumerate() {
        assert!(!ids[..i].contains(id));
    }
    // Publishing nothing publishes nothing and does not touch the topic.
    assert_eq!(Some(vec![]), registry.publish_at("T", vec![], at(9)));
    assert_eq!(at(1), registry.get_topic("T").unwrap().updated);
    // With the system clock.
    let ids = registry.publish("T", strings(&["f"])).unwrap();
    assert_eq!(1, ids.len());
    assert!(registry.get_topic("T").unwrap().updated.secs > 1_600_000_000);
    assert_eq!(None, registry.publish("nowhere", strings(&["f"])));
}

#[test]
fn registry_update_touches() {
    let mut registry = Registry::new_at(at(0));
    registry.create_topic_at("T", secs(60), secs(3), at(0));
    registry.create_subscription_at("S", "T", secs(60), secs(4), true, at(0)).unwrap();

    let meta = registry.update_topic_at("T", None, None, at(7)).unwrap();
    assert_eq!(60, meta.message_ttl);
    assert_eq!(3, meta.ttl);
    assert_eq!(at(0), meta.created);
    assert_eq!(at(7), meta.updated);
    let meta = registry.update_topic_at("T", Some(secs(1)), None, at(8)).unwrap();
    assert_eq!((1, 3, at(8)), (meta.message_ttl, meta.ttl, meta.updated));
    let meta = registry.update_topic_at("T", None, Some(secs(2)), at(9)).unwrap();
    assert_eq!((1, 2, at(9)), (meta.message_ttl, meta.ttl, meta.updated));
    assert_eq!(None, registry.update_topic_at("U", Some(secs(1)), None, at(9)));

    let meta = registry.update_subscription_at("S", None, None, at(7)).unwrap();
    assert_eq!((60, 4, at(0), at(7)), (meta.ack_deadline, meta.ttl, meta.created, meta.updated));
    let meta = registry.update_subscription_at("S", Some(secs(5)), Some(secs(6)), at(8)).unwrap();
    assert_eq!((5, 6, at(8)), (meta.ack_deadline, meta.ttl, meta.updated));
    assert_eq!(None, registry.update_subscription_at("R", None, None, at(9)));

    // With the system clock.
    let meta = registry.update_topic("T", None, None).unwrap();
    assert!(meta.updated > at(9));
    let meta = registry.update_subscription("S", None, None).unwrap();
    assert!(meta.updated > at(9));
}

#[test]
fn registry_pull_of_nothing_touches_nothing() {
    let mut registry = Registry::new_at(at(0));
    registry.create_topic_at("T", secs(60), secs(0), at(0));
    registry.create_subscription_at("S", "T", secs(60), secs(0), true, at(0)).unwrap();
    registry.publish_at("T", strings(&["a"]), at(0)).unwrap();
    assert_eq!(Some(vec![]), registry.pull_at("S", 0, at(5)));
    let meta = registry.get_subscription("S").unwrap();
    assert_eq!(at(0), meta.updated);
    let metrics = registry.metrics();
    assert_eq!(0, metrics.subscriptions[0].1.message_index);
    assert_eq!(0, metrics.subscriptions[0].1.pulled_all_time);
    // A pull that finds nothing still touches the subscription.
    registry.pull_at("S", 1, at(6)).unwrap();
    assert_eq!(Some(vec![]), registry.pull_at("S", 3, at(7)));
    assert_eq!(at(7), registry.get_subscription("S").unwrap().updated);
    assert_eq!(None, registry.pull_at("R", 1, at(7)));
    assert_eq!(None, registry.pull("R", 1));
    // By the system clock the deadline has long passed.
    let again = registry.pull("S", 1).unwrap();
    assert_eq!(strings(&["a"]), data(&again));
    assert_eq!(2, again[0].tries);
}

#[test]
fn registry_deadline_of_zero_redelivers_at_once() {
    let mut registry = Registry::new_at(at(0));
    registry.create_topic_at("T", secs(60), secs(0), at(0));
    registry.create_subscription_at("S", "T", secs(0), secs(0), true, at(0)).unwrap();
    registry.publish_at("T", strings(&["a"]), at(0)).unwrap();
    let messages = registry.pull_at("S", 4, at(1)).unwrap();
    assert_eq!(strings(&["a", "a", "a", "a"]), data(&messages));
    assert_eq!(vec![1, 2, 3, 4], messages.iter().map(|m| m.tries).collect::<Vec<u32>>());
    let metrics = registry.metrics();
    assert_eq!(4, metrics.subscriptions[0].1.pulled_all_time);
    assert_eq!(3, metrics.subscriptions[0].1.pulled_retries_all_time);
    assert_eq!(1, metrics.subscriptions[0].1.pending);
}

#[test]
fn registry_metrics_count() {
    let mut registry = Registry::new_at(at(0));
    registry.create_topic_at("T", secs(2), secs(0), at(0));
    registry.create_topic_at("U", secs(0), secs(90), at(0));
    registry.create_subscription_at("S", "T", secs(1), secs(30), true, at(0)).unwrap();
    registry.publish_at("T", strings(&["a", "b", "c"]), at(100)).unwrap();
    let pulled = registry.pull_at("S", 2, at(200)).unwrap();
    registry.ack_at("S", &[pulled[0].id, 99, pulled[0].id], at(300));
    let again = registry.pull_at("S", 5, at(1300)).unwrap();
    assert_eq!(strings(&["b", "c"]), data(&again));
    assert_eq!((0, 0, 3), registry.cleanup_at(at(2200), 4096));

    let metrics = registry.metrics();
    assert_eq!(2, metrics.topics_all_time);
    assert_eq!(1, metrics.subscriptions_all_time);
    assert_eq!(4096, metrics.memory_resident_set_size);
    assert_eq!(at(0), metrics.start_time);
    assert_eq!(2, metrics.topics.len());
    let (name, topic) = &metrics.topics[0];
    assert_eq!("T", name);
    assert_eq!(0, topic.messages);
    assert_eq!(3, topic.messages_all_time);
    assert_eq!(3, topic.expired_all_time);
    assert_eq!(2, topic.message_ttl);
    assert_eq!(0, topic.ttl);
    assert_eq!(at(0), topic.created);
    assert_eq!(at(100), topic.updated);
    let (name, topic) = &metrics.topics[1];
    assert_eq!("U", name);
    assert_eq!((0, 0, 0, 0, 90), (topic.messages, topic.messages_all_time, topic.expired_all_time, topic.message_ttl, topic.ttl));
    let (name, subscription) = &metrics.subscriptions[0];
    assert_eq!("S", name);
    assert_eq!(2, subscription.pending);
    assert_eq!(4, subscription.pulled_all_time);
    assert_eq!(1, subscription.pulled_retries_all_time);
    assert_eq!(3, subscription.acks_all_time);
    assert_eq!(1, subscription.acked_all_time);
    assert_eq!("T", subscription.topic);
    assert_eq!(3, subscription.message_index);
    assert_eq!(1, subscription.ack_deadline);
    assert_eq!(30, subscription.ttl);
    assert_eq!(at(0), subscription.created);
    assert_eq!(at(1300), subscription.updated);
}

#[test]
fn registry_cleanup_reaps_what_has_idled() {
    let mut registry = Registry::new_at(at(0));
    registry.create_topic_at("forever", secs(0), secs(0), at(0));
    registry.create_topic_at("short", secs(0), secs(1), at(0));
    registry.create_topic_at("long", secs(0), secs(10), at(0));
    registry.create_subscription_at("on_forever", "forever", secs(1), secs(0), true, at(0)).unwrap();
    registry.create_subscription_at("idle", "forever", secs(1), secs(1), true, at(0)).unwrap();
    registry.create_subscription_at("busy", "forever", secs(1), secs(1), true, at(0)).unwrap();
    registry.create_subscription_at("on_short", "short", secs(1), secs(0), true, at(0)).unwrap();
    registry.create_subscription_at("on_long", "long", secs(1), secs(0), true, at(0)).unwrap();

    // At the time to live itself nothing has idled past it.
    assert_eq!((0, 0, 0), registry.cleanup_at(at(1000), 0));
    registry.pull_at("busy", 1, at(1000)).unwrap();
    // The topic goes and the idle subscription goes; the subscription on the topic stays.
    assert_eq!((1, 1, 0), registry.cleanup_at(at(1001), 0));
    let names: Vec<String> = registry.list_topics().into_iter().map(|t| t.name).collect();
    assert_eq!(strings(&["forever", "long"]), names);
    let names: Vec<String> = registry.list_subscriptions().into_iter().map(|s| s.name).collect();
    assert_eq!(strings(&["on_forever", "busy", "on_short", "on_long"]), names);
    // Touching a topic keeps it.
    registry.update_topic_at("long", None, None, at(9000)).unwrap();
    assert_eq!((0, 1, 0), registry.cleanup_at(at(12_000), 0));
    assert_eq!((1, 0, 0), registry.cleanup_at(at(20_000), 0));
    assert_eq!((0, 0, 0), registry.cleanup_at(at(20_000_000), 0));
    assert_eq!(1, registry.list_topics().len());
    let names: Vec<String> = registry.list_subscriptions().into_iter().map(|s| s.name).collect();
    assert_eq!(strings(&["on_forever", "on_short", "on_long"]), names);
    // The name of a subscription that idled away stays linked.
    assert_eq!(
        Some(strings(&["on_forever", "idle", "busy"])),
        registry.list_topic_subscriptions("forever")
    );
    // With the system clock everything but what lives forever has gone long ago.
    registry.create_topic_at("old", secs(0), secs(1), at(0));
    assert_eq!((1, 0, 0), registry.cleanup(17));
    assert_eq!(17, registry.metrics().memory_resident_set_size);
}

#[test]
fn registry_subscription_outlives_its_topic() {
    let mut registry = Registry::new_at(at(0));
    registry.create_topic_at("T", secs(60), secs(1), at(0));
    registry.create_subscription_at("S", "T", secs(1), secs(0), true, at(0)).unwrap();
    let ids = registry.publish_at("T", strings(&["a", "b"]), at(0)).unwrap();
    let pulled = registry.pull_at("S", 1, at(0)).unwrap();
    assert_eq!(strings(&["a"]), data(&pulled));
    assert_eq!(1, registry.metrics().subscriptions[0].1.pending);

    // The topic idles away; the subscription, which never idles, stays.
    assert_eq!((1, 0, 0), registry.cleanup_at(at(5000), 0));
    assert_eq!(None, registry.get_topic("T"));
    let meta = registry.get_subscription("S").unwrap();
    assert_eq!(String::from("T"), meta.topic);
    assert_eq!(at(0), meta.updated);
    // Until it is pulled, the delivery stays on the books and can be acknowledged.
    assert_eq!(1, registry.metrics().subscriptions[0].1.pending);
    // A pull of nothing does not even look.
    assert_eq!(Some(vec![]), registry.pull_at("S", 0, at(5500)));
    assert_eq!(at(0), registry.get_subscription("S").unwrap().updated);
    assert_eq!(1, registry.metrics().subscriptions[0].1.pending);
    // A pull hands out nothing, though the deadline has passed, and clears the record.
    assert_eq!(Some(vec![]), registry.pull_at("S", 5, at(6000)));
    assert_eq!(at(6000), registry.get_subscription("S").unwrap().updated);
    let metrics = registry.metrics();
    assert_eq!(0, metrics.subscriptions[0].1.pending);
    assert_eq!(1, metrics.subscriptions[0].1.message_index);
    assert_eq!(1, metrics.subscriptions[0].1.pulled_all_time);
    assert_eq!(Some(vec![]), registry.ack_at("S", &ids, at(6001)));
    assert_eq!(at(6001), registry.get_subscription("S").unwrap().updated);

    // A new topic under the old name is another topic: the subscription stays orphaned.
    let (created, _) = registry.create_topic_at("T", secs(60), secs(0), at(7000));
    assert!(created);
    registry.publish_at("T", strings(&["c"]), at(7000)).unwrap();
    assert_eq!(Some(vec![]), registry.pull_at("S", 5, at(7001)));
    assert_eq!(Some(vec![]), registry.list_topic_subscriptions("T"));
    // Deleting the new topic does not delete it, for it is not linked there.
    assert!(registry.delete_topic("T"));
    assert!(registry.get_subscription("S").is_some());
    // It can be updated and deleted like any other.
    let meta = registry.update_subscription_at("S", Some(secs(9)), None, at(8000)).unwrap();
    assert_eq!((9, at(8000)), (meta.ack_deadline, meta.updated));
    assert!(registry.delete_subscription("S"));
    assert_eq!(None, registry.pull_at("S", 1, at(8001)));
}

#[test]
fn registry_acknowledges_after_the_topic_has_gone() {
    let mut registry = Registry::new_at(at(0));
    registry.create_topic_at("T", secs(60), secs(1), at(0));
    registry.create_subscription_at("S", "T", secs(1), secs(0), true, at(0)).unwrap();
    let ids = registry.publish_at("T", strings(&["a"]), at(0)).unwrap();
    registry.pull_at("S", 1, at(0)).unwrap();
    assert_eq!((1, 0, 0), registry.cleanup_at(at(5000), 0));
    // The acknowledgement goes by the books, which still hold the delivery.
    assert_eq!(Some(ids.clone()), registry.ack_at("S", &ids, at(5001)));
    assert_eq!(Some(vec![]), registry.ack_at("S", &ids, at(5002)));
    assert_eq!(0, registry.metrics().subscriptions[0].1.pending);
    assert_eq!(Some(vec![]), registry.pull_at("S", 1, at(5003)));
    // A subscription that idles away goes, orphaned or not.
    registry.update_subscription_at("S", None, Some(secs(1)), at(6000)).unwrap();
    assert_eq!((0, 1, 0), registry.cleanup_at(at(7001), 0));
    assert_eq!(None, registry.get_subscription("S"));
}

#[test]
fn registry_with_the_system_clock() {
    let mut registry = Registry::new();
    assert!(registry.metrics().start_time.secs > 1_500_000_000);
    let (created, topic) = registry.create_topic("T", secs(60), secs(0));
    assert!(created);
    assert_eq!(topic.created, topic.updated);
    assert!(topic.created >= registry.metrics().start_time);
    let (created, again) = registry.create_topic("T", secs(1), secs(1));
    assert!(!created);
    assert_eq!(topic, again);
    assert_eq!(None, registry.create_subscription("S", "U", secs(1), secs(0), false));
    let (created, subscription) =
        registry.create_subscription("S", "T", secs(60), secs(0), false).unwrap();
    assert!(created);
    assert!(subscription.created >= topic.created);
    let ids = registry.publish("T", strings(&["a", "b"])).unwrap();
    let messages = registry.pull("S", 10).unwrap();
    assert_eq!(strings(&["a", "b"]), data(&messages));
    assert_eq!(Some(vec![ids[1]]), registry.ack("S", &[ids[1], ids[1]]));
    assert_eq!(Some(vec![]), registry.ack("S", &[]));
    assert_eq!(None, registry.ack("R", &ids));
    assert_eq!(1, registry.metrics().subscriptions[0].1.pending);
}

#[test]
fn metrics_start_empty() {
    let metrics = Metrics::new_at(at(5));
    assert_eq!(at(5), metrics.start_time);
    assert_eq!(0, metrics.topics_all_time);
    assert_eq!(0, metrics.subscriptions_all_time);
    assert_eq!(0, metrics.memory_resident_set_size);
    assert!(metrics.topics.is_empty());
    assert!(metrics.subscriptions.is_empty());
    assert_eq!(metrics, Registry::new_at(at(5)).metrics());
    // By the system clock.
    let metrics = Metrics::new();
    assert!(metrics.start_time.secs > 1_500_000_000);
    assert_eq!(Metrics::new_at(metrics.start_time), metrics);
}
