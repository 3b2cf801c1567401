use courier::http_protocol::general_handlers;
use courier::http_protocol::state::{Config, HttpState};
use courier::http_protocol::subscription_handlers;
use courier::http_protocol::topic_handlers;
use courier::http_protocol::types::{
    MessageIdList, PullConfig, RawMessage, RawMessageList, SubscriptionConfig, SubscriptionCreateConfig,
    SubscriptionList, SubscriptionNameList, SubscriptionUpdateConfig, TopicConfig, TopicCreateConfig,
    TopicList, TopicUpdateConfig,
};
use courier::http_protocol::Status;
use courier::{Duration, Registry, SubscriptionMeta, Timestamp, TopicMeta};

fn get_server() -> (Config, HttpState) {
    let config = Config {
        host: String::from("localhost"),
        port: 3140,
        default_topic_ttl: Duration::seconds(0),
        default_subscription_ttl: Duration::seconds(0),
        default_message_ttl: Duration::seconds(3600),
        default_ack_deadline: Duration::seconds(60),
        default_max_messages: 1,
        cleanup_interval: Duration::seconds(1),
    };
    let server = HttpState::new(Registry::new(), &config);
    (config, server)
}

fn later(time: Timestamp, millis: i64) -> Timestamp {
    let nanos = time.nanos as i64 + (millis % 1000) * 1_000_000;
    Timestamp::new(time.secs + millis / 1000 + nanos / 1_000_000_000, (nanos % 1_000_000_000) as u32)
}

#[test]
fn http_protocol_create_topic() {
    let (config, mut server) = get_server();

    // Create a new topic
    let topic_config = TopicCreateConfig { message_ttl: None, ttl: None };
    let (status, body) = topic_handlers::create_with_name("test", &topic_config, &mut server);
    let expected = TopicMeta {
        name: String::from("test"),
        message_ttl: config.default_message_ttl.num_seconds(),
        ttl: 0,
        created: body.created,
        updated: body.updated,
    };
    assert_eq!(Status::Created, status);
    assert_eq!(201, status.code());
    assert_eq!(expected, body);
    // Try and create a topic that already exists
    let topic_config = TopicCreateConfig { message_ttl: Some(30), ttl: None };
    let (status, body) = topic_handlers::create_with_name("test", &topic_config, &mut server);
    assert_eq!(Status::Conflict, status);
    assert_eq!(409, status.code());
    assert_eq!(expected, body);
    // Create a topic with no name
    let topic_config = TopicCreateConfig { message_ttl: Some(12), ttl: None };
    let (status, body) = topic_handlers::create_without_name(&topic_config, &mut server);
    let expected = TopicMeta {
        name: body.name.clone(),
        message_ttl: 12,
        ttl: 0,
        created: body.created,
        updated: body.updated,
    };
    assert_eq!(Status::Created, status);
    assert_eq!(expected, body);
}

#[test]
fn http_protocol_names_are_uuids() {
    let (_, mut server) = get_server();
    let (_, first) = topic_handlers::create_without_name(&TopicCreateConfig::new(), &mut server);
    let (_, second) = topic_handlers::create_without_name(&TopicCreateConfig::new(), &mut server);
    assert_ne!(first.name, second.name);
    for name in [first.name.clone(), second.name.clone()] {
        assert_eq!(36, name.len());
        for (i, c) in name.chars().enumerate() {
            if i == 8 || i == 13 || i == 18 || i == 23 {
                assert_eq!('-', c);
            } else {
                assert!(c.is_ascii_digit() || ('a'..='f').contains(&c));
            }
        }
        assert_eq!(Some('4'), name.chars().nth(14));
    }
    let config = SubscriptionCreateConfig::new(first.name.as_str());
    let (status, subscription) =
        subscription_handlers::create_without_name(&config, &mut server).unwrap();
    assert_eq!(Status::Created, status);
    assert_eq!(36, subscription.name.len());
    assert_eq!(first.name, subscription.topic);
    assert_eq!(
        Some(subscription.clone()),
        subscription_handlers::get(subscription.name.as_str(), &server)
    );
}

#[test]
fn http_protocol_update_topic() {
    let (_, mut server) = get_server();

    // Create a new topic
    let topic_config = TopicCreateConfig { message_ttl: None, ttl: None };
    topic_handlers::create_with_name("test_topic", &topic_config, &mut server);
    // Update the topic
    let topic_config = TopicUpdateConfig { message_ttl: Some(60), ttl: Some(73) };
    let body = topic_handlers::update("test_topic", &topic_config, &mut server).unwrap();
    let mut expected = TopicMeta {
        name: String::from("test_topic"),
        message_ttl: 60,
        ttl: 73,
        created: body.created,
        updated: body.updated,
    };
    assert_eq!(expected, body);
    // Update the topic with no values
    let topic_config = TopicUpdateConfig { message_ttl: None, ttl: None };
    let body = topic_handlers::update("test_topic", &topic_config.clone(), &mut server).unwrap();
    expected.updated = body.updated;
    assert_eq!(expected, body);
    assert!(body.updated >= body.created);
    // Update a non existent topic
    assert_eq!(None, topic_handlers::update("does_not_exist", &topic_config, &mut server));
}

#[test]
fn http_protocol_delete_and_get_topic() {
    let (config, mut server) = get_server();

    // Create a new topic
    let topic_config = TopicCreateConfig { message_ttl: None, ttl: None };
    topic_handlers::create_with_name("test", &topic_config, &mut server);
    // Get the topic
    let body = topic_handlers::get("test", &server).unwrap();
    let expected = TopicMeta {
        name: String::from("test"),
        message_ttl: config.default_message_ttl.num_seconds(),
        ttl: 0,
        created: body.created,
        updated: body.updated,
    };
    assert_eq!(expected, body);
    // Delete the topic
    let status = topic_handlers::delete("test", &mut server);
    assert_eq!(Status::Success, status);
    assert_eq!(200, status.code());
    // Delete a topic that does not exist
    let status = topic_handlers::delete("does_not_exist", &mut server);
    assert_eq!(Status::NotFound, status);
    assert_eq!(404, status.code());
    // Get a topic that does not exist
    assert_eq!(None, topic_handlers::get("test", &server));
}

#[test]
fn http_protocol_create_subscription() {
    let (config, mut server) = get_server();

    // Create a new topic
    let topic_config = TopicCreateConfig { message_ttl: None, ttl: None };
    topic_handlers::create_with_name("test_topic", &topic_config, &mut server);

    // Create a new subscription
    let subscription_config = SubscriptionCreateConfig {
        topic: String::from("test_topic"),
        ack_deadline: None,
        ttl: None,
        historical: Some(false),
    };
    let (status, body) =
        subscription_handlers::create_with_name("test", &subscription_config, &mut server).unwrap();
    let expected = SubscriptionMeta {
        name: String::from("test"),
        topic: String::from("test_topic"),
        ack_deadline: config.default_ack_deadline.num_seconds(),
        ttl: 0,
        created: body.created,
        updated: body.updated,
    };
    assert_eq!(status, Status::Created);
    assert_eq!(expected, body);
    // Try and create a subscription that already exists
    let subscription_config = SubscriptionCreateConfig {
        topic: String::from("test_topic"),
        ack_deadline: Some(45),
        ttl: None,
        historical: None,
    };
    let (status, body) =
        subscription_handlers::create_with_name("test", &subscription_config, &mut server).unwrap();
    assert_eq!(status, Status::Conflict);
    assert_eq!(expected, body);
    // Create a subscription with no name
    let subscription_config = SubscriptionCreateConfig {
        topic: String::from("test_topic"),
        ack_deadline: Some(67),
        ttl: None,
        historical: Some(false),
    };
    let (status, body) =
        subscription_handlers::create_without_name(&subscription_config, &mut server).unwrap();
    let expected = SubscriptionMeta {
        name: body.name.clone(),
        topic: String::from("test_topic"),
        ack_deadline: 67,
        ttl: 0,
        created: body.created,
        updated: body.updated,
    };
    assert_eq!(Status::Created, status);
    assert_eq!(expected, body);
    // Create a subscription on a topic that does not exist
    let subscription_config = SubscriptionCreateConfig::new("does_not_exist");
    assert_eq!(
        None,
        subscription_handlers::create_with_name("other", &subscription_config, &mut server)
    );
    assert_eq!(None, subscription_handlers::get("other", &server));
}

#[test]
fn http_protocol_update_subscription() {
    let (_, mut server) = get_server();

    // Create a new topic
    let topic_config = TopicCreateConfig { message_ttl: None, ttl: None };
    topic_handlers::create_with_name("test_topic", &topic_config, &mut server);

    // Create a new subscription
    let subscription_config = SubscriptionCreateConfig {
        topic: String::from("test_topic"),
        ack_deadline: None,
        ttl: None,
        historical: Some(true),
    };
    subscription_handlers::create_with_name("test_subscription", &subscription_config, &mut server);
    // Update the subscription
    let subscription_config = SubscriptionUpdateConfig { ack_deadline: Some(60), ttl: Some(73) };
    let body =
        subscription_handlers::update("test_subscription", &subscription_config, &mut server).unwrap();
    let mut expected = SubscriptionMeta {
        name: String::from("test_subscription"),
        topic: String::from("test_topic"),
        ack_deadline: 60,
        ttl: 73,
        created: body.created,
        updated: body.updated,
    };
    assert_eq!(expected, body);
    // Update the subscription with no deadline
    let subscription_config = SubscriptionUpdateConfig { ack_deadline: None, ttl: None };
    let body = subscription_handlers::update(
        "test_subscription",
        &subscription_config.clone(),
        &mut server,
    )
    .unwrap();
    expected.updated = body.updated;
    assert_eq!(expected, body);
    // Update a non existent topic
    assert_eq!(
        None,
        subscription_handlers::update("does_not_exist", &subscription_config, &mut server)
    );
}

#[test]
fn http_protocol_delete_and_get_subscription() {
    let (config, mut server) = get_server();

    // Create a new topic
    let topic_config = TopicCreateConfig { message_ttl: None, ttl: None };
    topic_handlers::create_with_name("test_topic", &topic_config, &mut server);

    // Create a new subscription
    let subscription_config = SubscriptionCreateConfig {
        topic: String::from("test_topic"),
        ack_deadline: None,
        ttl: None,
        historical: Some(true),
    };
    subscription_handlers::create_with_name("test", &subscription_config, &mut server);
    // Get the subscription
    let body = subscription_handlers::get("test", &server).unwrap();
    let expected = SubscriptionMeta {
        name: String::from("test"),
        topic: String::from("test_topic"),
        ack_deadline: config.default_ack_deadline.num_seconds(),
        ttl: 0,
        created: body.created,
        updated: body.updated,
    };
    assert_eq!(expected, body);
    // Delete the subscription
    let status = subscription_handlers::delete("test", &mut server);
    assert_eq!(Status::Success, status);
    // Delete a subscription that does not exist
    let status = subscription_handlers::delete("does_not_exist", &mut server);
    assert_eq!(Status::NotFound, status);
    // Get a subscription that does not exist
    assert_eq!(None, subscription_handlers::get("test", &server));
}

#[test]
fn http_protocol_lists() {
    let (config, mut server) = get_server();

    // Create a new topics
    let topic_config = TopicCreateConfig { message_ttl: None, ttl: None };
    topic_handlers::create_with_name("topic0", &topic_config.clone(), &mut server);
    topic_handlers::create_with_name("topic1", &topic_config, &mut server);

    // Create new subscriptions
    let subscription_config = SubscriptionCreateConfig {
        topic: String::from("topic0"),
        ack_deadline: None,
        ttl: None,
        historical: Some(true),
    };
    subscription_handlers::create_with_name("subscription0", &subscription_config.clone(), &mut server);
    subscription_handlers::create_with_name("subscription1", &subscription_config, &mut server);
    let subscription_config = SubscriptionCreateConfig {
        topic: String::from("topic1"),
        ack_deadline: None,
        ttl: None,
        historical: Some(false),
    };
    subscription_handlers::create_with_name("subscription2", &subscription_config, &mut server);

    // List the topics
    let mut body: TopicList = topic_handlers::list(&server);
    assert_eq!(2, body.topics.len());
    body.topics.sort();
    let expected = TopicList::new(vec![
        TopicMeta {
            name: String::from("topic0"),
            message_ttl: config.default_message_ttl.num_seconds(),
            ttl: 0,
            created: body.topics[0].created,
            updated: body.topics[0].updated,
        },
        TopicMeta {
            name: String::from("topic1"),
            message_ttl: config.default_message_ttl.num_seconds(),
            ttl: 0,
            created: body.topics[1].created,
            updated: body.topics[1].updated,
        },
    ]);
    assert_eq!(expected, body);
    // List the subscriptions
    let mut body: SubscriptionList = subscription_handlers::list(&server);
    assert_eq!(3, body.subscriptions.len());
    body.subscriptions.sort();
    let expected = SubscriptionList::new(vec![
        SubscriptionMeta {
            name: String::from("subscription0"),
            topic: String::from("topic0"),
            ack_deadline: config.default_ack_deadline.num_seconds(),
            ttl: 0,
            created: body.subscriptions[0].created,
            updated: body.subscriptions[0].updated,
        },
        SubscriptionMeta {
            name: String::from("subscription1"),
            topic: String::from("topic0"),
            ack_deadline: config.default_ack_deadline.num_seconds(),
            ttl: 0,
            created: body.subscriptions[1].created,
            updated: body.subscriptions[1].updated,
        },
        SubscriptionMeta {
            name: String::from("subscription2"),
            topic: String::from("topic1"),
            ack_deadline: config.default_ack_deadline.num_seconds(),
            ttl: 0,
            created: body.subscriptions[2].created,
            updated: body.subscriptions[2].updated,
        },
    ]);
    assert_eq!(expected, body);
    // List the topic subscriptions
    let expected = SubscriptionNameList::new(vec![
        String::from("subscription0"),
        String::from("subscription1"),
    ]);
    let mut body: SubscriptionNameList = topic_handlers::subscriptions("topic0", &server).unwrap();
    body.subscription_names.sort();
    assert_eq!(expected, body);
    // Delete a subscription
    subscription_handlers::delete("subscription1", &mut server);
    // List the topic subscriptions
    let expected = SubscriptionNameList::new(vec![String::from("subscription0")]);
    let mut body: SubscriptionNameList = topic_handlers::subscriptions("topic0", &server).unwrap();
    body.subscription_names.sort();
    assert_eq!(expected, body);
    // List the subscriptions of a topic that does not exist
    assert_eq!(None, topic_handlers::subscriptions("does_not_exist", &server));
}

#[test]
fn http_protocol_ttls() {
    let (_, mut server) = get_server();

    // Create topics
    let topic_config = TopicCreateConfig { message_ttl: Some(2), ttl: Some(0) };
    let (_, topic0) = topic_handlers::create_with_name("topic0", &topic_config, &mut server);
    let topic_config = TopicCreateConfig { message_ttl: Some(2), ttl: Some(1) };
    topic_handlers::create_with_name("topic1", &topic_config, &mut server);

    // Create subscriptions
    let topic_config = SubscriptionCreateConfig {
        topic: String::from("topic0"),
        ack_deadline: Some(1),
        ttl: None,
        historical: Some(true),
    };
    subscription_handlers::create_with_name("sub0", &topic_config, &mut server);
    let topic_config = SubscriptionCreateConfig {
        topic: String::from("topic0"),
        ack_deadline: Some(1),
        ttl: Some(1),
        historical: Some(true),
    };
    let (_, sub1) = subscription_handlers::create_with_name("sub1", &topic_config, &mut server).unwrap();

    // Nothing has expired yet
    assert_eq!((0, 0, 0), server.registry.cleanup_at(sub1.created, 0));

    // Wait for ttls to expire
    let removed = server.registry.cleanup_at(later(sub1.created, 2000), 0);
    assert_eq!((1, 1, 0), removed);
    assert!(topic0.created <= sub1.created);

    assert!(topic_handlers::get("topic0", &server).is_some());
    assert_eq!(None, topic_handlers::get("topic1", &server));

    assert!(subscription_handlers::get("sub0", &server).is_some());
    assert_eq!(None, subscription_handlers::get("sub1", &server));
}

#[test]
fn http_protocol_basic() {
    let (_, mut server) = get_server();

    // Create a new topics
    let topic_config = TopicCreateConfig { message_ttl: Some(2), ttl: None };
    let (_, topic) = topic_handlers::create_with_name("topic0", &topic_config, &mut server);
    let start = topic.created;
    // Publish messages
    let messages = vec![String::from("first"), String::from("second"), String::from("third")];
    let body = server.registry.publish_at("topic0", messages.clone(), start).unwrap();
    assert_eq!(messages.len(), body.len());

    // Create a new subscriptions
    let mut subscription_config = SubscriptionCreateConfig {
        topic: String::from("topic0"),
        ack_deadline: Some(1),
        ttl: None,
        historical: Some(true),
    };
    subscription_handlers::create_with_name("subscription0", &subscription_config.clone(), &mut server);
    subscription_config.historical = None;
    subscription_handlers::create_with_name("subscription1", &subscription_config.clone(), &mut server);

    // Pull the first two messages
    let pull_config = PullConfig::new(2);
    let body = server
        .registry
        .pull_at("subscription0", pull_config.max_messages.unwrap(), start)
        .unwrap();
    assert_eq!(pull_config.max_messages.unwrap(), body.len());
    assert_eq!(body[0].data, String::from("first"));
    assert_eq!(body[1].data, String::from("second"));
    let saved_messages = body;
    // Try and pull messages from not historical subscription1
    let body = server.registry.pull_at("subscription1", 100, start).unwrap();
    assert_eq!(0, body.len());
    // Ack the second one
    let message_ids = MessageIdList::new(vec![saved_messages[1].id]);
    let acked = server.registry.ack_at("subscription0", &message_ids.message_ids, start);
    assert_eq!(Some(vec![saved_messages[1].id]), acked);
    // Wait for the ack deadline to expire, then try and pull 5 more message
    let body = server.registry.pull_at("subscription0", 5, later(start, 1100)).unwrap();
    assert_eq!(2, body.len());
    assert_eq!(String::from("first"), body[0].data);
    assert_eq!(String::from("third"), body[1].data);

    // Publish more messages
    let messages = vec![String::from("fourth"), String::from("fifth")];
    let body = server
        .registry
        .publish_at("topic0", messages.clone(), later(start, 1100))
        .unwrap();
    assert_eq!(messages.len(), body.len());
    // Wait so the first messages expire
    assert_eq!((0, 0, 3), server.registry.cleanup_at(later(start, 2200), 0));

    // Pull messages from subscription1
    let body = server.registry.pull_at("subscription1", 100, later(start, 2200)).unwrap();
    assert_eq!(2, body.len());
    assert_eq!(String::from("fourth"), body[0].data);
    assert_eq!(String::from("fifth"), body[1].data);

    // Try and publish to nonexistent topic
    let messages = RawMessageList::new(vec![]);
    assert_eq!(None, topic_handlers::publish("does_not_exist", messages, &mut server));

    // Try and pull from a nonexistent subscription
    let pull_config = PullConfig::new(100);
    assert_eq!(None, subscription_handlers::pull("does_not_exist", &pull_config, &mut server));

    // Try and ack to a nonexistent subscription
    let message_ids = MessageIdList::new(vec![]);
    assert_eq!(None, subscription_handlers::ack("does_not_exist", &message_ids, &mut server));
}

#[test]
fn http_protocol_publish_pull_ack() {
    let (_, mut server) = get_server();
    topic_handlers::create_with_name("topic", &TopicCreateConfig::new(), &mut server);
    let config = SubscriptionCreateConfig::new("topic");
    subscription_handlers::create_with_name("subscription", &config, &mut server);
    let messages = RawMessageList::new(vec![
        RawMessage::new(String::from("first")),
        RawMessage::new(String::from("second")),
    ]);
    let ids = topic_handlers::publish("topic", messages, &mut server).unwrap();
    assert_eq!(2, ids.message_ids.len());
    assert_ne!(ids.message_ids[0], ids.message_ids[1]);
    // Without a number of messages a pull hands out the default: one.
    let pulled =
        subscription_handlers::pull("subscription", &PullConfig { max_messages: None }, &mut server)
            .unwrap();
    assert_eq!(1, pulled.messages.len());
    assert_eq!(ids.message_ids[0], pulled.messages[0].id);
    assert_eq!(String::from("first"), pulled.messages[0].data);
    assert_eq!(1, pulled.messages[0].tries);
    let pulled =
        subscription_handlers::pull("subscription", &PullConfig::new(10), &mut server).unwrap();
    assert_eq!(1, pulled.messages.len());
    assert_eq!(ids.message_ids[1], pulled.messages[0].id);
    let acked = subscription_handlers::ack(
        "subscription",
        &MessageIdList::new(vec![ids.message_ids[1], 7, ids.message_ids[0], ids.message_ids[1]]),
        &mut server,
    )
    .unwrap();
    assert_eq!(vec![ids.message_ids[1], ids.message_ids[0]], acked.message_ids);
    let pulled =
        subscription_handlers::pull("subscription", &PullConfig::new(0), &mut server).unwrap();
    assert!(pulled.messages.is_empty());
}

#[test]
fn http_protocol_general_handlers() {
    let (_, mut server) = get_server();

    assert_eq!("heartbeat", general_handlers::heartbeat());
    assert_eq!(String::from("ui"), general_handlers::ui());
    let metrics = general_handlers::metrics(&server);
    assert_eq!(0, metrics.topics_all_time);
    assert_eq!(0, metrics.subscriptions_all_time);
    assert!(metrics.topics.is_empty());
    assert!(metrics.subscriptions.is_empty());
    assert!(metrics.start_time.secs > 1_500_000_000);
    topic_handlers::create_with_name("topic", &TopicCreateConfig::new(), &mut server);
    let metrics = general_handlers::metrics(&server);
    assert_eq!(1, metrics.topics_all_time);
    assert_eq!(1, metrics.topics.len());
    assert_eq!(String::from("topic"), metrics.topics[0].0);
    assert_eq!(3600, metrics.topics[0].1.message_ttl);
}

#[test]
fn http_protocol_defaults_fill_what_a_request_leaves_out() {
    let (config, _) = get_server();
    assert_eq!(
        TopicConfig { message_ttl: Duration::seconds(3600), ttl: Duration::seconds(0) },
        TopicCreateConfig::new().resolve(&config)
    );
    assert_eq!(
        TopicConfig { message_ttl: Duration::seconds(5), ttl: Duration::seconds(4_294_967_295) },
        TopicCreateConfig { message_ttl: Some(5), ttl: Some(u32::MAX) }.resolve(&config)
    );
    assert_eq!(
        SubscriptionConfig {
            topic: String::from("topic"),
            ack_deadline: Duration::seconds(60),
            ttl: Duration::seconds(0),
            historical: false,
        },
        SubscriptionCreateConfig::new("topic").resolve(&config)
    );
    assert_eq!(
        SubscriptionConfig {
            topic: String::from("topic"),
            ack_deadline: Duration::seconds(1),
            ttl: Duration::seconds(2),
            historical: true,
        },
        SubscriptionCreateConfig {
            topic: String::from("topic"),
            ack_deadline: Some(1),
            ttl: Some(2),
            historical: Some(true),
        }
        .resolve(&config)
    );
    assert_eq!(config, config.clone());
}

#[test]
fn tests_basic() {
    let (_, mut server) = get_server();

    // Create a topic
    let topic_config = TopicCreateConfig { message_ttl: Some(10), ttl: None };
    let (status, body) = topic_handlers::create_with_name("test_topic", &topic_config, &mut server);
    assert_eq!(status, Status::Created);
    assert_eq!((String::from("test_topic"), 10), (body.name, body.message_ttl));
    // Create another topic
    let topic_config = TopicCreateConfig { message_ttl: Some(5), ttl: None };
    let (status, body) = topic_handlers::create_with_name("another_topic", &topic_config, &mut server);
    assert_eq!(status, Status::Created);
    assert_eq!((String::from("another_topic"), 5), (body.name, body.message_ttl));
    // Try and create another topic with the same name
    let topic_config = TopicCreateConfig { message_ttl: Some(30), ttl: None };
    let (status, body) = topic_handlers::create_with_name("another_topic", &topic_config, &mut server);
    assert_eq!(status, Status::Conflict);
    assert_eq!((String::from("another_topic"), 5), (body.name, body.message_ttl));

    // Create subscriptions on topic test_topic
    let mut subscription_config = SubscriptionCreateConfig::new("test_topic");
    subscription_config.ack_deadline = Some(2);
    let (status, body) =
        subscription_handlers::create_with_name("sub0", &subscription_config, &mut server).unwrap();
    assert_eq!(status, Status::Created);
    assert_eq!(
        (String::from("sub0"), String::from("test_topic"), 2),
        (body.name, body.topic, body.ack_deadline)
    );
    subscription_config.ack_deadline = Some(4);
    let (status, body) =
        subscription_handlers::create_with_name("sub1", &subscription_config, &mut server).unwrap();
    assert_eq!(status, Status::Created);
    assert_eq!(
        (String::from("sub1"), String::from("test_topic"), 4),
        (body.name, body.topic, body.ack_deadline)
    );
    // Try and create another subscription with the same name
    subscription_config.ack_deadline = Some(10);
    let (status, body) =
        subscription_handlers::create_with_name("sub1", &subscription_config, &mut server).unwrap();
    assert_eq!(status, Status::Conflict);
    assert_eq!(
        (String::from("sub1"), String::from("test_topic"), 4),
        (body.name, body.topic, body.ack_deadline)
    );
    // Create subscription on topic another_topic
    let mut subscription_config = SubscriptionCreateConfig::new("another_topic");
    subscription_config.ack_deadline = Some(5);
    let (status, body) =
        subscription_handlers::create_with_name("sub2", &subscription_config, &mut server).unwrap();
    assert_eq!(status, Status::Created);
    assert_eq!(
        (String::from("sub2"), String::from("another_topic"), 5),
        (body.name, body.topic, body.ack_deadline)
    );
    // Try and create a subscription to a topic that does not exist
    let mut subscription_config = SubscriptionCreateConfig::new("bad_topic");
    subscription_config.ack_deadline = Some(5);
    assert_eq!(
        None,
        subscription_handlers::create_with_name("sub3", &subscription_config, &mut server)
    );

    // Get a topic
    let body = topic_handlers::get("test_topic", &server).unwrap();
    assert_eq!((String::from("test_topic"), 10), (body.name, body.message_ttl));
    // Try and get a topic that does not exist
    assert_eq!(None, topic_handlers::get("bad_topic", &server));

    // Get a subscription
    let body = subscription_handlers::get("sub0", &server).unwrap();
    assert_eq!(
        (String::from("sub0"), String::from("test_topic"), 2),
        (body.name, body.topic, body.ack_deadline)
    );
    // Try and get a subscription that does not exist
    assert_eq!(None, subscription_handlers::get("bad_subscription", &server));

    // Get a topics list
    assert_eq!(topic_handlers::list(&server).topics.len(), 2);
    // Get a subscriptions list
    assert_eq!(subscription_handlers::list(&server).subscriptions.len(), 3);
    // Get a topics subscriptions list
    assert_eq!(
        topic_handlers::subscriptions("test_topic", &server).unwrap().subscription_names.len(),
        2
    );
}
