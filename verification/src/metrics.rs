//! What the registry reports about itself and about what it holds.

use crate::registry::model::{RegistryView, SubscriptionStoreView, TopicStoreView};
use crate::registry::Registry;
use crate::subscription::{Subscription, SubscriptionView};
use crate::time::{now, Timestamp};
use crate::topic::{Topic, TopicView};
use vstd::prelude::*;
use vstd::std_specs::hash::*;

verus! {

/// Metrics on a topic.
#[derive(Clone, Copy, Debug, PartialEq, Eq, Structural)]
pub struct TopicMetrics {
    /// Number of messages in the topic.
    pub messages: usize,
    /// Number of messages published all time.
    pub messages_all_time: u64,
    /// Number of messages expired all time.
    pub expired_all_time: u64,
    /// Message time to live.
    pub message_ttl: i64,
    /// Time to live.
    pub ttl: i64,
    /// When the topic was created.
    pub created: Timestamp,
    /// When the topic was last updated.
    pub updated: Timestamp,
}

/// What a [`TopicMetrics`] says.
pub struct TopicMetricsView {
    pub messages: nat,
    pub messages_all_time: u64,
    pub expired_all_time: u64,
    pub message_ttl: int,
    pub ttl: int,
    pub created: Timestamp,
    pub updated: Timestamp,
}

impl TopicMetricsView {
    /// The metrics on `topic`, of which `messages_all_time` messages were
    /// published and `expired_all_time` have expired: the number of messages
    /// it holds, the two counts, its two times to live in whole seconds, and
    /// its timestamps.
    pub open spec fn of(topic: TopicView, messages_all_time: u64, expired_all_time: u64) -> TopicMetricsView {
        TopicMetricsView {
            messages: topic.log.items.len(),
            messages_all_time,
            expired_all_time,
            message_ttl: topic.message_ttl.whole_seconds(),
            ttl: topic.ttl.whole_seconds(),
            created: topic.created,
            updated: topic.updated,
        }
    }

    /// The metrics on what the registry keeps for a topic.
    pub open spec fn of_store(store: TopicStoreView) -> TopicMetricsView {
        TopicMetricsView::of(store.topic, store.messages_all_time, store.expired_all_time)
    }
}

impl View for TopicMetrics {
    type V = TopicMetricsView;

    open spec fn view(&self) -> TopicMetricsView {
        TopicMetricsView {
            messages: self.messages as nat,
            messages_all_time: self.messages_all_time,
            expired_all_time: self.expired_all_time,
            message_ttl: self.message_ttl as int,
            ttl: self.ttl as int,
            created: self.created,
            updated: self.updated,
        }
    }
}

impl TopicMetrics {

    /// Create a new topic metrics: the metrics on a topic nothing has been
    /// counted for yet.
    pub fn new(topic: &Topic) -> (m: Self)
        ensures
            m@ == (TopicMetricsView { messages: 0, ..TopicMetricsView::of(topic@, 0, 0) }),
    {
        TopicMetrics {
            messages: 0,
            messages_all_time: 0,
            expired_all_time: 0,
            message_ttl: topic.message_ttl.num_seconds(),
            ttl: topic.ttl.num_seconds(),
            created: topic.created,
            updated: topic.updated,
        }
    }
}

/// What a [`SubscriptionMetrics`] says.
pub struct SubscriptionMetricsView {
    pub pending: nat,
    pub pulled_all_time: u64,
    pub pulled_retries_all_time: u64,
    pub acks_all_time: u64,
    pub acked_all_time: u64,
    pub topic: Seq<char>,
    pub message_index: nat,
    pub ack_deadline: int,
    pub ttl: int,
    pub created: Timestamp,
    pub updated: Timestamp,
}

impl SubscriptionMetricsView {
    /// The metrics on `subscription` with the four counters as given.
    pub open spec fn of(
        subscription: SubscriptionView,
        pulled_all_time: u64,
        pulled_retries_all_time: u64,
        acks_all_time: u64,
        acked_all_time: u64,
    ) -> SubscriptionMetricsView {
        SubscriptionMetricsView {
            pending: subscription.pending_ids.len(),
            pulled_all_time,
            pulled_retries_all_time,
            acks_all_time,
            acked_all_time,
            topic: subscription.topic,
            message_index: subscription.cursor.next_index,
            ack_deadline: subscription.ack_deadline.whole_seconds(),
            ttl: subscription.ttl.whole_seconds(),
            created: subscription.created,
            updated: subscription.updated,
        }
    }

    /// The metrics on what the registry keeps for a subscription.
    pub open spec fn of_store(store: SubscriptionStoreView) -> SubscriptionMetricsView {
        SubscriptionMetricsView::of(
            store.subscription,
            store.pulled_all_time,
            store.pulled_retries_all_time,
            store.acks_all_time,
            store.acked_all_time,
        )
    }
}

/// Metrics on a subscription.
#[derive(Debug, PartialEq, Eq)]
pub struct SubscriptionMetrics {
    /// Number of currently pending messages.
    pub pending: usize,
    /// Number of messages pulled all time.
    pub pulled_all_time: u64,
    /// Number of pulls of an already pulled message all time.
    pub pulled_retries_all_time: u64,
    /// Number of messages tried to ack all time.
    pub acks_all_time: u64,
    /// Number of messages successfully acked all time.
    pub acked_all_time: u64,
    /// Topic name.
    pub topic: String,
    /// Index into a topic.
    pub message_index: usize,
    /// Ack deadline.
    pub ack_deadline: i64,
    /// Time to live.
    pub ttl: i64,
    /// When the subscription was created.
    pub created: Timestamp,
    /// When the subscription was last updated.
    pub updated: Timestamp,
}

impl View for SubscriptionMetrics {
    type V = SubscriptionMetricsView;

    open spec fn view(&self) -> SubscriptionMetricsView {
        SubscriptionMetricsView {
            pending: self.pending as nat,
            pulled_all_time: self.pulled_all_time,
            pulled_retries_all_time: self.pulled_retries_all_time,
            acks_all_time: self.acks_all_time,
            acked_all_time: self.acked_all_time,
            topic: self.topic@,
            message_index: self.message_index as nat,
            ack_deadline: self.ack_deadline as int,
            ttl: self.ttl as int,
            created: self.created,
            updated: self.updated,
        }
    }
}

impl SubscriptionMetrics {
    /// Create a new subscription metrics: the metrics on a subscription
    /// nothing has been counted for yet.
    pub fn new(subscription: &Subscription) -> (m: Self)
        ensures
            m@ == (SubscriptionMetricsView { pending: 0, ..SubscriptionMetricsView::of(subscription@, 0, 0, 0, 0) }),
    {
        SubscriptionMetrics {
            pending: 0,
            pulled_all_time: 0,
            pulled_retries_all_time: 0,
            acks_all_time: 0,
            acked_all_time: 0,
            topic: subscription.topic.clone(),
            message_index: subscription.next_index(),
            ack_deadline: subscription.ack_deadline.num_seconds(),
            ttl: subscription.ttl.num_seconds(),
            created: subscription.created,
            updated: subscription.updated,
        }
    }
}

/// Broker metrics.
#[derive(Debug, PartialEq, Eq)]
pub struct Metrics {
    /// Number of topics all time.
    pub topics_all_time: u64,
    /// Number of subscriptions all time.
    pub subscriptions_all_time: u64,
    /// The memory resident set size usage.
    pub memory_resident_set_size: i64,
    /// When the service was started.
    pub start_time: Timestamp,
    /// Topic metrics, by topic name.
    pub topics: Vec<(String, TopicMetrics)>,
    /// Subscription metrics, by subscription name.
    pub subscriptions: Vec<(String, SubscriptionMetrics)>,
}

impl Metrics {
    /// Whether these are the metrics of `registry`: its own counts, and for
    /// every topic and subscription, in the registry's order, the name and
    /// the metrics on it.
    pub open spec fn describes(&self, registry: RegistryView) -> bool {
        &&& self.topics_all_time == registry.topics_all_time
        &&& self.subscriptions_all_time == registry.subscriptions_all_time
        &&& self.memory_resident_set_size == registry.memory_resident_set_size
        &&& self.start_time == registry.start_time
        &&& self.topics@.len() == registry.topics.len()
        &&& forall|t: int|
            0 <= t < registry.topics.len() ==> {
                &&& (#[trigger] self.topics@[t]).0@ == registry.topics[t].topic.name
                &&& self.topics@[t].1@ == TopicMetricsView::of_store(registry.topics[t])
            }
        &&& self.subscriptions@.len() == registry.subscriptions.len()
        &&& forall|s: int|
            0 <= s < registry.subscriptions.len() ==> {
                &&& (#[trigger] self.subscriptions@[s]).0@ == registry.subscriptions[s].subscription.name
                &&& self.subscriptions@[s].1@ == SubscriptionMetricsView::of_store(registry.subscriptions[s])
            }
    }

    /// Create a new metrics: those of a registry that holds nothing, started
    /// at the current time.
    pub fn new() -> (m: Self)
        ensures
            m.describes(RegistryView::fresh(m.start_time)),
    {
        Metrics::new_at(now())
    }

    /// Create a new metrics: those of a registry that holds nothing, started
    /// at `start_time`.
    pub fn new_at(start_time: Timestamp) -> (m: Self)
        ensures
            m.start_time == start_time,
            m.describes(RegistryView::fresh(start_time)),
    {
        Metrics {
            topics_all_time: 0,
            subscriptions_all_time: 0,
            memory_resident_set_size: 0,
            start_time,
            topics: Vec::new(),
            subscriptions: Vec::new(),
        }
    }
}

impl Registry {
    /// Get a copy of the metrics.
    pub fn metrics(&self) -> (m: Metrics)
        ensures
            m.describes(self@),
    {
        broadcast use group_hash_axioms;

        let mut topics: Vec<(String, TopicMetrics)> = Vec::with_capacity(self.topics.len());
        let mut t: usize = 0;
        while t < self.topics.len()
            invariant
                t <= self.topics.len(),
                topics@.len() == t,
                forall|k: int|
                    0 <= k < t ==> {
                        &&& (#[trigger] topics@[k]).0@ == self@.topics[k].topic.name
                        &&& topics@[k].1@ == TopicMetricsView::of_store(self@.topics[k])
                    },
            decreases self.topics.len() - t,
        {
            let store = &self.topics[t];
            let metrics = TopicMetrics {
                messages: store.topic.len(),
                messages_all_time: store.messages_all_time,
                expired_all_time: store.expired_all_time,
                message_ttl: store.topic.message_ttl.num_seconds(),
                ttl: store.topic.ttl.num_seconds(),
                created: store.topic.created,
                updated: store.topic.updated,
            };
            topics.push((store.topic.name.clone(), metrics));
            t = t + 1;
        }
        let mut subscriptions: Vec<(String, SubscriptionMetrics)> = Vec::with_capacity(self.subscriptions.len());
        let mut s: usize = 0;
        while s < self.subscriptions.len()
            invariant
                s <= self.subscriptions.len(),
                subscriptions@.len() == s,
                forall|k: int|
                    0 <= k < s ==> {
                        &&& (#[trigger] subscriptions@[k]).0@ == self@.subscriptions[k].subscription.name
                        &&& subscriptions@[k].1@ == SubscriptionMetricsView::of_store(self@.subscriptions[k])
                    },
            decreases self.subscriptions.len() - s,
        {
            let store = &self.subscriptions[s];
            let metrics = SubscriptionMetrics {
                pending: store.subscription.num_pending(),
                pulled_all_time: store.pulled_all_time,
                pulled_retries_all_time: store.pulled_retries_all_time,
                acks_all_time: store.acks_all_time,
                acked_all_time: store.acked_all_time,
                topic: store.subscription.topic.clone(),
                message_index: store.subscription.next_index(),
                ack_deadline: store.subscription.ack_deadline.num_seconds(),
                ttl: store.subscription.ttl.num_seconds(),
                created: store.subscription.created,
                updated: store.subscription.updated,
            };
            subscriptions.push((store.subscription.name.clone(), metrics));
            s = s + 1;
        }
        Metrics {
            topics_all_time: self.topics_all_time,
            subscriptions_all_time: self.subscriptions_all_time,
            memory_resident_set_size: self.memory_resident_set_size,
            start_time: self.start_time,
            topics,
            subscriptions,
        }
    }
}

} // verus!
