//! The registry: the topics and subscriptions of one broker, by name.

pub mod model;
pub mod lemmas;
pub mod reaper;
pub mod subscriptions;
pub mod topics;

use crate::names;
use crate::registry::model::{RegistryView, SubscriptionStoreView, TopicStoreView};
use crate::subscription::Subscription;
use crate::time::{now, Duration, Timestamp};
use crate::topic::Topic;
use vstd::prelude::*;

verus! {

/// What the registry keeps for one topic.
#[derive(Debug)]
pub struct TopicStore {
    pub(crate) topic: Topic,
    pub(crate) subscriptions: Vec<String>,
    pub(crate) messages_all_time: u64,
    pub(crate) expired_all_time: u64,
}

impl View for TopicStore {
    type V = TopicStoreView;

    open(crate) spec fn view(&self) -> TopicStoreView {
        TopicStoreView {
            topic: self.topic@,
            subscriptions: names::views(self.subscriptions@),
            messages_all_time: self.messages_all_time,
            expired_all_time: self.expired_all_time,
        }
    }
}

impl TopicStore {
    pub(crate) fn new(name: &str, message_ttl: Duration, ttl: Duration, now: Timestamp) -> (store: Self)
        ensures
            store@ == TopicStoreView::fresh(name@, message_ttl, ttl, now),
            store@.wf(),
    {
        let store = TopicStore {
            topic: Topic::new_at(name, message_ttl, ttl, now),
            subscriptions: Vec::new(),
            messages_all_time: 0,
            expired_all_time: 0,
        };
        assert(store@.subscriptions =~= Seq::empty());
        store
    }
}

/// What the registry keeps for one subscription.
#[derive(Debug)]
pub struct SubscriptionStore {
    pub(crate) subscription: Subscription,
    pub(crate) pulled_all_time: u64,
    pub(crate) pulled_retries_all_time: u64,
    pub(crate) acks_all_time: u64,
    pub(crate) acked_all_time: u64,
}

impl View for SubscriptionStore {
    type V = SubscriptionStoreView;

    open(crate) spec fn view(&self) -> SubscriptionStoreView {
        SubscriptionStoreView {
            subscription: self.subscription@,
            pulled_all_time: self.pulled_all_time,
            pulled_retries_all_time: self.pulled_retries_all_time,
            acks_all_time: self.acks_all_time,
            acked_all_time: self.acked_all_time,
        }
    }
}

impl SubscriptionStore {
    pub(crate) fn new(subscription: Subscription) -> (store: Self)
        ensures
            store@ == SubscriptionStoreView::fresh(subscription@),
    {
        SubscriptionStore {
            subscription,
            pulled_all_time: 0,
            pulled_retries_all_time: 0,
            acks_all_time: 0,
            acked_all_time: 0,
        }
    }
}

/// A registry mapping names to topics and subscriptions, with what it counts
/// about them.
#[derive(Debug)]
pub struct Registry {
    pub(crate) topics: Vec<TopicStore>,
    pub(crate) subscriptions: Vec<SubscriptionStore>,
    pub(crate) topics_all_time: u64,
    pub(crate) subscriptions_all_time: u64,
    pub(crate) memory_resident_set_size: i64,
    pub(crate) start_time: Timestamp,
}

impl View for Registry {
    type V = RegistryView;

    open(crate) spec fn view(&self) -> RegistryView {
        RegistryView {
            topics: Seq::new(self.topics@.len(), |i: int| self.topics@[i]@),
            subscriptions: Seq::new(self.subscriptions@.len(), |i: int| self.subscriptions@[i]@),
            topics_all_time: self.topics_all_time,
            subscriptions_all_time: self.subscriptions_all_time,
            memory_resident_set_size: self.memory_resident_set_size,
            start_time: self.start_time,
        }
    }
}

impl Registry {
    /// The registry is in order.
    pub open spec fn wf(&self) -> bool {
        self@.wf()
    }

    /// Create a new registry, started at the current time.
    pub fn new() -> (registry: Self)
        ensures
            registry.wf(),
            registry@ == RegistryView::fresh(registry@.start_time),
    {
        Registry::new_at(now())
    }

    /// Create a new registry, started at `now`.
    pub fn new_at(now: Timestamp) -> (registry: Self)
        ensures
            registry.wf(),
            registry@ == RegistryView::fresh(now),
    {
        let registry = Registry {
            topics: Vec::new(),
            subscriptions: Vec::new(),
            topics_all_time: 0,
            subscriptions_all_time: 0,
            memory_resident_set_size: 0,
            start_time: now,
        };
        assert(registry@.topics =~= Seq::empty());
        assert(registry@.subscriptions =~= Seq::empty());
        registry
    }

    /// Finds the topic called `name`.
    pub(crate) fn find_topic(&self, name: &str) -> (r: Option<usize>)
        requires
            self@.topic_names().no_duplicates(),
        ensures
            match r {
                Some(t) => self@.topic_index(name@) == Some(t as int) && t < self.topics.len(),
                None => self@.topic_index(name@) is None,
            },
    {
        let key = name.to_owned();
        let mut t: usize = 0;
        while t < self.topics.len()
            invariant
                t <= self.topics.len(),
                key@ == name@,
                self@.topic_names().no_duplicates(),
                forall|j: int| 0 <= j < t ==> self@.topic_names()[j] != name@,
            decreases self.topics.len() - t,
        {
            if self.topics[t].topic.name == key {
                proof {
                    names::lemma_position_is(self@.topic_names(), name@, t as int);
                }
                return Some(t);
            }
            t = t + 1;
        }
        None
    }

    /// Finds the subscription called `name`.
    pub(crate) fn find_subscription(&self, name: &str) -> (r: Option<usize>)
        requires
            self@.subscription_names().no_duplicates(),
        ensures
            match r {
                Some(s) => self@.subscription_index(name@) == Some(s as int) && s < self.subscriptions.len(),
                None => self@.subscription_index(name@) is None,
            },
    {
        let key = name.to_owned();
        let mut s: usize = 0;
        while s < self.subscriptions.len()
            invariant
                s <= self.subscriptions.len(),
                key@ == name@,
                self@.subscription_names().no_duplicates(),
                forall|j: int| 0 <= j < s ==> self@.subscription_names()[j] != name@,
            decreases self.subscriptions.len() - s,
        {
            if self.subscriptions[s].subscription.name == key {
                proof {
                    names::lemma_position_is(self@.subscription_names(), name@, s as int);
                }
                return Some(s);
            }
            s = s + 1;
        }
        None
    }
}

} // verus!
