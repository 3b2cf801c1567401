//! The bodies of requests and answers.

use crate::http_protocol::state::Config;
use crate::message::Message;
use crate::subscription::SubscriptionMeta;
use crate::time::Duration;
use crate::topic::TopicMeta;
use vstd::prelude::*;
use vstd::std_specs::convert::FromSpecImpl;

verus! {

/// The settings of a topic, as a request to create it gives them: in seconds,
/// each one optional.
#[derive(Clone, Copy, Debug, PartialEq, Eq, Structural)]
pub struct TopicCreateConfig {
    pub message_ttl: Option<u32>,
    pub ttl: Option<u32>,
}

/// The settings of a topic, as a request to update it gives them: in seconds;
/// one that is missing is not to change.
#[derive(Clone, Copy, Debug, PartialEq, Eq, Structural)]
pub struct TopicUpdateConfig {
    pub message_ttl: Option<u32>,
    pub ttl: Option<u32>,
}

/// The settings a topic is created with.
#[derive(Clone, Copy, Debug, PartialEq, Eq, Structural)]
pub struct TopicConfig {
    pub message_ttl: Duration,
    pub ttl: Duration,
}

/// A span of `secs` seconds.
pub open spec fn span(secs: u32) -> Duration {
    Duration { millis: (secs * 1000) as i64 }
}

/// A span of `secs` seconds.
pub fn seconds(secs: u32) -> (d: Duration)
    ensures
        d == span(secs),
{
    Duration::seconds(secs as i64)
}

/// The span that `secs` gives in seconds, if it gives one.
pub open spec fn optional_span(secs: Option<u32>) -> Option<Duration> {
    match secs {
        Some(secs) => Some(span(secs)),
        None => None,
    }
}

/// The span that `secs` gives in seconds, if it gives one.
pub fn optional_seconds(secs: Option<u32>) -> (d: Option<Duration>)
    ensures
        d == optional_span(secs),
{
    match secs {
        Some(secs) => Some(seconds(secs)),
        None => None,
    }
}

/// The span that `secs` gives in seconds, or `default` if it gives none.
pub open spec fn span_or(secs: Option<u32>, default: Duration) -> Duration {
    match secs {
        Some(secs) => span(secs),
        None => default,
    }
}

/// The span that `secs` gives in seconds, or `default` if it gives none.
pub fn seconds_or(secs: Option<u32>, default: Duration) -> (d: Duration)
    ensures
        d == span_or(secs, default),
{
    match secs {
        Some(secs) => seconds(secs),
        None => default,
    }
}

impl TopicCreateConfig {
    /// A request that leaves every setting to the defaults.
    pub fn new() -> (c: Self)
        ensures
            c == (TopicCreateConfig { message_ttl: None, ttl: None }),
    {
        TopicCreateConfig { message_ttl: None, ttl: None }
    }

    /// The settings the topic is created with under the defaults of `cfg`.
    pub open spec fn resolved(self, cfg: Config) -> TopicConfig {
        TopicConfig {
            message_ttl: span_or(self.message_ttl, cfg.default_message_ttl),
            ttl: span_or(self.ttl, cfg.default_topic_ttl),
        }
    }

    /// The settings the topic is created with under the defaults of `cfg`.
    pub fn resolve(&self, cfg: &Config) -> (c: TopicConfig)
        ensures
            c == self.resolved(*cfg),
    {
        TopicConfig {
            message_ttl: seconds_or(self.message_ttl, cfg.default_message_ttl),
            ttl: seconds_or(self.ttl, cfg.default_topic_ttl),
        }
    }
}

/// A list of topics.
#[derive(Debug, PartialEq, Eq)]
pub struct TopicList {
    pub topics: Vec<TopicMeta>,
}

impl TopicList {
    pub fn new(topics: Vec<TopicMeta>) -> (list: Self)
        ensures
            list.topics == topics,
    {
        Self { topics }
    }
}

/// A payload to publish.
#[derive(Debug, PartialEq, Eq)]
pub struct RawMessage {
    pub data: String,
}

impl RawMessage {
    pub fn new(data: String) -> (message: Self)
        ensures
            message.data == data,
    {
        Self { data }
    }
}

impl FromSpecImpl<RawMessage> for Message {
    open spec fn obeys_from_spec() -> bool {
        false
    }

    closed spec fn from_spec(raw: RawMessage) -> Message {
        arbitrary()
    }
}

impl From<RawMessage> for Message {
    /// A message for the payload, as [`Message::new`] makes it.
    fn from(raw: RawMessage) -> (m: Message)
        ensures
            m.tries == 0,
            m.data == raw.data,
    {
        Message::new(raw.data)
    }
}

/// A list of payloads to publish.
#[derive(Debug, PartialEq, Eq)]
pub struct RawMessageList {
    pub raw_messages: Vec<RawMessage>,
}

impl RawMessageList {
    pub fn new(raw_messages: Vec<RawMessage>) -> (list: Self)
        ensures
            list.raw_messages == raw_messages,
    {
        Self { raw_messages }
    }

    /// The payloads, in their order.
    pub open spec fn payloads(self) -> Seq<String> {
        Seq::new(self.raw_messages@.len(), |i: int| self.raw_messages@[i].data)
    }

    /// Takes the payloads out of the list, in their order.
    pub fn into_data(self) -> (data: Vec<String>)
        ensures
            data@ == self.payloads(),
    {
        let mut data: Vec<String> = Vec::with_capacity(self.raw_messages.len());
        for message in it: self.raw_messages
            invariant
                it.seq() == self.raw_messages@,
                data@.len() == it.index(),
                forall|i: int| 0 <= i < it.index() ==> data@[i] == self.raw_messages@[i].data,
        {
            data.push(message.data);
        }
        assert(data@ =~= self.payloads());
        data
    }
}

/// A list of message ids.
#[derive(Debug, PartialEq, Eq)]
pub struct MessageIdList {
    pub message_ids: Vec<u128>,
}

impl MessageIdList {
    pub fn new(message_ids: Vec<u128>) -> (list: Self)
        ensures
            list.message_ids == message_ids,
    {
        Self { message_ids }
    }
}

/// A list of subscription names.
#[derive(Debug, PartialEq, Eq)]
pub struct SubscriptionNameList {
    pub subscription_names: Vec<String>,
}

impl SubscriptionNameList {
    pub fn new(subscription_names: Vec<String>) -> (list: Self)
        ensures
            list.subscription_names == subscription_names,
    {
        Self { subscription_names }
    }
}

/// The settings of a subscription, as a request to create it gives them: the
/// topic, and in seconds and each one optional, the rest.
#[derive(Debug, PartialEq, Eq)]
pub struct SubscriptionCreateConfig {
    pub topic: String,
    pub ack_deadline: Option<u32>,
    pub ttl: Option<u32>,
    pub historical: Option<bool>,
}

/// The settings a subscription is created with.
#[derive(Debug, PartialEq, Eq)]
pub struct SubscriptionConfig {
    pub topic: String,
    pub ack_deadline: Duration,
    pub ttl: Duration,
    pub historical: bool,
}

impl Clone for SubscriptionCreateConfig {
    fn clone(&self) -> (c: Self)
        ensures
            c == *self,
    {
        SubscriptionCreateConfig {
            topic: self.topic.clone(),
            ack_deadline: self.ack_deadline,
            ttl: self.ttl,
            historical: self.historical,
        }
    }
}

impl SubscriptionCreateConfig {
    /// A request for a subscription on `topic` that leaves every setting to
    /// the defaults.
    pub fn new(topic: &str) -> (c: Self)
        ensures
            c.topic@ == topic@,
            c.ack_deadline is None,
            c.ttl is None,
            c.historical is None,
    {
        SubscriptionCreateConfig { topic: topic.to_owned(), ack_deadline: None, ttl: None, historical: None }
    }

    /// The settings the subscription is created with under the defaults of
    /// `cfg`. A subscription is not historical unless the request says so.
    pub open spec fn resolved(self, cfg: Config) -> SubscriptionConfig {
        SubscriptionConfig {
            topic: self.topic,
            ack_deadline: span_or(self.ack_deadline, cfg.default_ack_deadline),
            ttl: span_or(self.ttl, cfg.default_subscription_ttl),
            historical: match self.historical {
                Some(historical) => historical,
                None => false,
            },
        }
    }

    /// The settings the subscription is created with under the defaults of
    /// `cfg`.
    pub fn resolve(&self, cfg: &Config) -> (c: SubscriptionConfig)
        ensures
            c == self.resolved(*cfg),
    {
        SubscriptionConfig {
            topic: self.topic.clone(),
            ack_deadline: seconds_or(self.ack_deadline, cfg.default_ack_deadline),
            ttl: seconds_or(self.ttl, cfg.default_subscription_ttl),
            historical: match self.historical {
                Some(historical) => historical,
                None => false,
            },
        }
    }
}

/// The settings of a subscription, as a request to update it gives them: in
/// seconds; one that is missing is not to change.
#[derive(Clone, Copy, Debug, PartialEq, Eq, Structural)]
pub struct SubscriptionUpdateConfig {
    pub ack_deadline: Option<u32>,
    pub ttl: Option<u32>,
}

/// A list of subscriptions.
#[derive(Debug, PartialEq, Eq)]
pub struct SubscriptionList {
    pub subscriptions: Vec<SubscriptionMeta>,
}

impl SubscriptionList {
    pub fn new(subscriptions: Vec<SubscriptionMeta>) -> (list: Self)
        ensures
            list.subscriptions == subscriptions,
    {
        Self { subscriptions }
    }
}

/// A list of messages.
#[derive(Debug, PartialEq, Eq)]
pub struct MessageList {
    pub messages: Vec<Message>,
}

impl MessageList {
    pub fn new(messages: Vec<Message>) -> (list: Self)
        ensures
            list.messages == messages,
    {
        Self { messages }
    }
}

/// How many messages a pull wants at most, if it says.
#[derive(Clone, Copy, Debug, PartialEq, Eq, Structural)]
pub struct PullConfig {
    pub max_messages: Option<usize>,
}

impl PullConfig {
    pub fn new(max_messages: usize) -> (c: Self)
        ensures
            c.max_messages == Some(max_messages),
    {
        Self { max_messages: Some(max_messages) }
    }

    /// How many messages the pull hands out at most under the defaults of
    /// `cfg`.
    pub open spec fn resolved(self, cfg: Config) -> usize {
        match self.max_messages {
            Some(max) => max,
            None => cfg.default_max_messages,
        }
    }
}

} // verus!
