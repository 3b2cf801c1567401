//! What a registry holds and what each of its operations makes of it, stated
//! over sequences, sets and numbers.

use crate::names::{position, with_name, without_name};
use crate::commit_log::CursorView;
use crate::message::Message;
use crate::subscription::{retries, SubscriptionView};
use crate::time::{is_stale, Duration, Timestamp};
use crate::topic::TopicView;
use vstd::prelude::*;

verus! {

/// `count` more on top of the counter `total`; a counter that is full stays
/// full.
pub open spec fn counted(total: u64, count: nat) -> u64 {
    if total + count > u64::MAX {
        u64::MAX
    } else {
        (total + count) as u64
    }
}

/// Counts `count` more on top of `total`.
pub fn count_up(total: u64, count: usize) -> (r: u64)
    ensures
        r == counted(total, count as nat),
{
    total.saturating_add(count as u64)
}

/// What the registry keeps for one topic: the topic, the names of the
/// subscriptions linked to it, and two counters that only grow.
pub struct TopicStoreView {
    pub topic: TopicView,
    pub subscriptions: Seq<Seq<char>>,
    pub messages_all_time: u64,
    pub expired_all_time: u64,
}

impl TopicStoreView {
    /// What is kept for a topic that has just been created.
    pub open spec fn fresh(name: Seq<char>, message_ttl: Duration, ttl: Duration, now: Timestamp) -> Self {
        TopicStoreView {
            topic: TopicView::fresh(name, message_ttl, ttl, now),
            subscriptions: Seq::empty(),
            messages_all_time: 0,
            expired_all_time: 0,
        }
    }

    /// Whether the topic has idled past its time to live at `now`.
    pub open spec fn stale(self, now: Timestamp) -> bool {
        is_stale(self.topic.ttl, self.topic.updated, now)
    }

    /// What is kept for the topic after its expired messages are removed at
    /// `now`.
    pub open spec fn cleanup(self, now: Timestamp) -> Self {
        TopicStoreView {
            topic: self.topic.cleanup(now),
            expired_all_time: counted(self.expired_all_time, self.topic.expired_count(now)),
            ..self
        }
    }

    /// The topic's log fits the machine, and no name is linked twice.
    pub open spec fn wf(self) -> bool {
        &&& self.topic.log.end() <= usize::MAX
        &&& self.subscriptions.no_duplicates()
    }
}

/// What the registry keeps for one subscription: the subscription and four
/// counters that only grow.
pub struct SubscriptionStoreView {
    pub subscription: SubscriptionView,
    pub pulled_all_time: u64,
    pub pulled_retries_all_time: u64,
    pub acks_all_time: u64,
    pub acked_all_time: u64,
}

impl SubscriptionStoreView {
    /// Whether the subscription has idled past its time to live at `now`.
    pub open spec fn stale(self, now: Timestamp) -> bool {
        is_stale(self.subscription.ttl, self.subscription.updated, now)
    }

    /// What is kept for a subscription that has just been created.
    pub open spec fn fresh(subscription: SubscriptionView) -> Self {
        SubscriptionStoreView {
            subscription,
            pulled_all_time: 0,
            pulled_retries_all_time: 0,
            acks_all_time: 0,
            acked_all_time: 0,
        }
    }
}

/// The number of messages that a cleanup at `now` removes from `topics`.
pub open spec fn expired_total(topics: Seq<TopicStoreView>, now: Timestamp) -> nat
    decreases topics.len(),
{
    if topics.len() == 0 {
        0
    } else {
        expired_total(topics.drop_last(), now) + topics.last().topic.expired_count(now)
    }
}

/// `total` as a machine word; one that is too large counts as the largest
/// word.
pub open spec fn capped(total: nat) -> usize {
    if total > usize::MAX {
        usize::MAX
    } else {
        total as usize
    }
}

/// What a [`Registry`] holds: its topics and its subscriptions, each in the
/// order of their creation, and what it counts and records about itself.
pub struct RegistryView {
    pub topics: Seq<TopicStoreView>,
    pub subscriptions: Seq<SubscriptionStoreView>,
    pub topics_all_time: u64,
    pub subscriptions_all_time: u64,
    pub memory_resident_set_size: i64,
    pub start_time: Timestamp,
}

impl RegistryView {
    /// A registry that holds nothing, started at `now`.
    pub open spec fn fresh(now: Timestamp) -> Self {
        RegistryView {
            topics: Seq::empty(),
            subscriptions: Seq::empty(),
            topics_all_time: 0,
            subscriptions_all_time: 0,
            memory_resident_set_size: 0,
            start_time: now,
        }
    }

    /// The names of the topics, in the order of the topics.
    pub open spec fn topic_names(self) -> Seq<Seq<char>> {
        Seq::new(self.topics.len(), |i: int| self.topics[i].topic.name)
    }

    /// The names of the subscriptions, in the order of the subscriptions.
    pub open spec fn subscription_names(self) -> Seq<Seq<char>> {
        Seq::new(self.subscriptions.len(), |i: int| self.subscriptions[i].subscription.name)
    }

    /// The position of the topic called `name`.
    pub open spec fn topic_index(self, name: Seq<char>) -> Option<int> {
        position(self.topic_names(), name)
    }

    /// The position of the subscription called `name`.
    pub open spec fn subscription_index(self, name: Seq<char>) -> Option<int> {
        position(self.subscription_names(), name)
    }

    /// Whether there is a topic called `name`.
    pub open spec fn has_topic(self, name: Seq<char>) -> bool {
        self.topic_index(name) is Some
    }

    /// Whether there is a subscription called `name`.
    pub open spec fn has_subscription(self, name: Seq<char>) -> bool {
        self.subscription_index(name) is Some
    }

    /// The topic called `name`.
    pub open spec fn topic(self, name: Seq<char>) -> TopicStoreView
        recommends
            self.has_topic(name),
    {
        self.topics[self.topic_index(name)->0]
    }

    /// The subscription called `name`.
    pub open spec fn subscription(self, name: Seq<char>) -> SubscriptionStoreView
        recommends
            self.has_subscription(name),
    {
        self.subscriptions[self.subscription_index(name)->0]
    }

    /// The subscription `s` is attached: its topic is there and links it, and
    /// it reads that topic's log.
    pub open spec fn attached(self, s: SubscriptionView) -> bool {
        match self.topic_index(s.topic) {
            Some(t) => self.topics[t].subscriptions.contains(s.name) && s.wf(self.topics[t].topic.log),
            None => false,
        }
    }

    /// The subscription `s` is in order: its books are in order, and it is
    /// attached unless its topic is gone. A subscription whose topic is gone
    /// stays orphaned, also when a topic is created under the same name.
    pub open spec fn in_order(self, s: SubscriptionView) -> bool {
        s.accounted() && (s.orphaned || self.attached(s))
    }

    /// No two topics share a name, no two subscriptions share a name, and
    /// what is kept for each topic is in order.
    pub open spec fn distinct(self) -> bool {
        &&& self.topic_names().no_duplicates()
        &&& self.subscription_names().no_duplicates()
        &&& forall|t: int| 0 <= t < self.topics.len() ==> (#[trigger] self.topics[t]).wf()
    }

    /// The registry is in order: names are unique, and every subscription is
    /// in order: attached to a topic of the registry, or orphaned.
    pub open spec fn wf(self) -> bool {
        &&& self.distinct()
        &&& forall|s: int|
            0 <= s < self.subscriptions.len() ==> self.in_order(
                (#[trigger] self.subscriptions[s]).subscription,
            )
    }

    /// The registry after a request to create the topic `name`: a topic that
    /// is there already stays as it is.
    pub open spec fn create_topic(
        self,
        name: Seq<char>,
        message_ttl: Duration,
        ttl: Duration,
        now: Timestamp,
    ) -> Self {
        if self.has_topic(name) {
            self
        } else {
            RegistryView {
                topics: self.topics.push(TopicStoreView::fresh(name, message_ttl, ttl, now)),
                topics_all_time: counted(self.topics_all_time, 1),
                ..self
            }
        }
    }

    /// The registry with `topic` in the place of the topic at `t`.
    pub open spec fn with_topic(self, t: int, topic: TopicView) -> Self
        recommends
            0 <= t < self.topics.len(),
    {
        RegistryView { topics: self.topics.update(t, TopicStoreView { topic, ..self.topics[t] }), ..self }
    }

    /// The registry with `name` linked to the topic at `t`.
    pub open spec fn link(self, t: int, name: Seq<char>) -> Self
        recommends
            0 <= t < self.topics.len(),
    {
        RegistryView {
            topics: self.topics.update(
                t,
                TopicStoreView {
                    subscriptions: with_name(self.topics[t].subscriptions, name),
                    ..self.topics[t]
                },
            ),
            ..self
        }
    }

    /// The registry with `name` no longer linked to the topic at `t`.
    pub open spec fn unlink(self, t: int, name: Seq<char>) -> Self
        recommends
            0 <= t < self.topics.len(),
    {
        RegistryView {
            topics: self.topics.update(
                t,
                TopicStoreView {
                    subscriptions: without_name(self.topics[t].subscriptions, name),
                    ..self.topics[t]
                },
            ),
            ..self
        }
    }

    /// The registry after an update of the topic `name` at `now`: the
    /// settings that are given are set, and the topic is touched.
    pub open spec fn update_topic(
        self,
        name: Seq<char>,
        message_ttl: Option<Duration>,
        ttl: Option<Duration>,
        now: Timestamp,
    ) -> Self {
        match self.topic_index(name) {
            Some(t) => self.with_topic(t, self.topics[t].topic.update(message_ttl, ttl, now)),
            None => self,
        }
    }

    /// The registry after the subscription `name` is deleted: it leaves the
    /// subscriptions, and its name leaves the links of the topic it names, if
    /// that topic is there.
    pub open spec fn delete_subscription(self, name: Seq<char>) -> Self {
        match self.subscription_index(name) {
            Some(s) => {
                let without = RegistryView { subscriptions: self.subscriptions.remove(s), ..self };
                match without.topic_index(self.subscriptions[s].subscription.topic) {
                    Some(t) => without.unlink(t, name),
                    None => without,
                }
            },
            None => self,
        }
    }

    /// The registry after the subscriptions `names` are deleted, first to
    /// last.
    pub open spec fn delete_subscriptions(self, names: Seq<Seq<char>>) -> Self
        decreases names.len(),
    {
        if names.len() == 0 {
            self
        } else {
            self.delete_subscriptions(names.drop_last()).delete_subscription(names.last())
        }
    }

    /// The registry after the topic `name` is deleted: the topic leaves, and
    /// then every subscription whose name is linked to it is deleted.
    pub open spec fn delete_topic(self, name: Seq<char>) -> Self {
        match self.topic_index(name) {
            Some(t) => (RegistryView { topics: self.topics.remove(t), ..self }).delete_subscriptions(
                self.topics[t].subscriptions,
            ),
            None => self,
        }
    }

    /// The registry after the payloads `data` are published to the topic
    /// `name`, the payload `data[k]` at the time `times[k]` under the
    /// identifier `ids[k]`.
    pub open spec fn publish(
        self,
        name: Seq<char>,
        ids: Seq<u128>,
        times: Seq<Timestamp>,
        data: Seq<String>,
    ) -> Self
        recommends
            ids.len() == data.len(),
            times.len() == data.len(),
    {
        match self.topic_index(name) {
            Some(t) => RegistryView {
                topics: self.topics.update(
                    t,
                    TopicStoreView {
                        topic: self.topics[t].topic.publish_all(ids, times, data),
                        messages_all_time: counted(self.topics[t].messages_all_time, data.len()),
                        ..self.topics[t]
                    },
                ),
                ..self
            },
            None => self,
        }
    }

    /// The times of `count` payloads that are all published at `now`.
    pub open spec fn all_at(count: nat, now: Timestamp) -> Seq<Timestamp> {
        Seq::new(count, |k: int| now)
    }

    /// Whether `count` more messages fit the topic `name`: whether its log has
    /// that many sequence numbers left. True where there is no such topic.
    pub open spec fn can_publish(self, name: Seq<char>, count: nat) -> bool {
        self.has_topic(name) ==> self.topic(name).topic.log.end() + count <= usize::MAX
    }

    /// The registry after a request at `now` to create the subscription
    /// `name` on the topic `topic`. Without the topic nothing happens. A
    /// subscription that is there already stays as it is; a new one starts at
    /// the head of the topic's log if `historical`, else at its tail. Either
    /// way `name` is then linked to the topic.
    pub open spec fn create_subscription(
        self,
        name: Seq<char>,
        topic: Seq<char>,
        ack_deadline: Duration,
        ttl: Duration,
        historical: bool,
        now: Timestamp,
    ) -> Self {
        match self.topic_index(topic) {
            Some(t) => {
                let log = self.topics[t].topic.log;
                let cursor = if historical {
                    CursorView::at_head(log)
                } else {
                    CursorView::at_tail(log)
                };
                let added = if self.has_subscription(name) {
                    self
                } else {
                    RegistryView {
                        subscriptions: self.subscriptions.push(
                            SubscriptionStoreView::fresh(
                                SubscriptionView::fresh(name, topic, ack_deadline, ttl, cursor, now),
                            ),
                        ),
                        subscriptions_all_time: counted(self.subscriptions_all_time, 1),
                        ..self
                    }
                };
                added.link(t, name)
            },
            None => self,
        }
    }

    /// The registry after an update of the subscription `name` at `now`: the
    /// settings that are given are set, and the subscription is touched.
    pub open spec fn update_subscription(
        self,
        name: Seq<char>,
        ack_deadline: Option<Duration>,
        ttl: Option<Duration>,
        now: Timestamp,
    ) -> Self {
        match self.subscription_index(name) {
            Some(s) => RegistryView {
                subscriptions: self.subscriptions.update(
                    s,
                    SubscriptionStoreView {
                        subscription: self.subscriptions[s].subscription.update(ack_deadline, ttl, now),
                        ..self.subscriptions[s]
                    },
                ),
                ..self
            },
            None => self,
        }
    }

    /// The log that the subscription `name` reads.
    pub open spec fn log_of(self, name: Seq<char>) -> crate::commit_log::LogView<crate::message::Envelope>
        recommends
            self.has_subscription(name),
            !self.subscription(name).subscription.orphaned,
    {
        self.topic(self.subscription(name).subscription.topic).topic.log
    }

    /// What a pull of up to `max` messages at `now` makes of the
    /// subscription `name`, and the messages that it hands out. A
    /// subscription whose topic is gone hands out nothing; the one pull that
    /// finds this out clears its record.
    pub open spec fn pull_from(self, name: Seq<char>, max: nat, now: Timestamp) -> (
        SubscriptionView,
        Seq<Message>,
    )
        recommends
            self.has_subscription(name),
    {
        let subscription = self.subscription(name).subscription;
        if !subscription.orphaned {
            subscription.pull_many(self.log_of(name), now, max)
        } else if max == 0 {
            (subscription, Seq::empty())
        } else {
            (subscription.pull_orphaned(now), Seq::empty())
        }
    }

    /// The messages that a pull of up to `max` messages from the
    /// subscription `name` at `now` hands out.
    pub open spec fn pulled(self, name: Seq<char>, max: nat, now: Timestamp) -> Seq<Message>
        recommends
            self.has_subscription(name),
    {
        self.pull_from(name, max, now).1
    }

    /// The registry after a pull of up to `max` messages from the
    /// subscription `name` at `now`.
    pub open spec fn pull(self, name: Seq<char>, max: nat, now: Timestamp) -> Self {
        match self.subscription_index(name) {
            Some(s) => {
                let store = self.subscriptions[s];
                let (subscription, messages) = self.pull_from(name, max, now);
                RegistryView {
                    subscriptions: self.subscriptions.update(
                        s,
                        SubscriptionStoreView {
                            subscription,
                            pulled_all_time: counted(store.pulled_all_time, messages.len()),
                            pulled_retries_all_time: counted(store.pulled_retries_all_time, retries(messages)),
                            ..store
                        },
                    ),
                    ..self
                }
            },
            None => self,
        }
    }

    /// The identifiers among `ids` that the subscription `name` accepts when
    /// they are acknowledged at `now`, one after the other.
    pub open spec fn acked(self, name: Seq<char>, ids: Seq<u128>, now: Timestamp) -> Seq<u128>
        recommends
            self.has_subscription(name),
    {
        self.subscription(name).subscription.accepted(ids, now)
    }

    /// The registry after `ids` are acknowledged to the subscription `name`
    /// at `now`.
    pub open spec fn ack(self, name: Seq<char>, ids: Seq<u128>, now: Timestamp) -> Self {
        match self.subscription_index(name) {
            Some(s) => {
                let store = self.subscriptions[s];
                RegistryView {
                    subscriptions: self.subscriptions.update(
                        s,
                        SubscriptionStoreView {
                            subscription: store.subscription.ack_many(ids, now),
                            acks_all_time: counted(store.acks_all_time, ids.len()),
                            acked_all_time: counted(
                                store.acked_all_time,
                                store.subscription.accepted(ids, now).len(),
                            ),
                            ..store
                        },
                    ),
                    ..self
                }
            },
            None => self,
        }
    }

    /// Whether a cleanup at `now` keeps the topic `name`.
    pub open spec fn keeps_topic(self, name: Seq<char>, now: Timestamp) -> bool {
        self.has_topic(name) && !self.topic(name).stale(now)
    }

    /// Whether a cleanup at `now` keeps what is kept for the subscription
    /// `store`: whether the subscription has not idled past its time to
    /// live. Whether its topic stays does not matter.
    pub open spec fn keeps_subscription(self, store: SubscriptionStoreView, now: Timestamp) -> bool {
        !store.stale(now)
    }

    /// What a cleanup at `now` makes of what is kept for a subscription that
    /// stays: if its topic goes, it is orphaned.
    pub open spec fn after_cleanup(self, store: SubscriptionStoreView, now: Timestamp) -> SubscriptionStoreView {
        if store.subscription.orphaned || self.keeps_topic(store.subscription.topic, now) {
            store
        } else {
            SubscriptionStoreView { subscription: store.subscription.orphan(), ..store }
        }
    }

    /// The subscriptions that a cleanup at `now` keeps, as they were before
    /// it.
    pub open spec fn kept_subscriptions(self, now: Timestamp) -> Seq<SubscriptionStoreView> {
        self.subscriptions.filter(|store: SubscriptionStoreView| self.keeps_subscription(store, now))
    }

    /// The topics that a cleanup at `now` keeps, before their messages are
    /// cleaned up.
    pub open spec fn kept_topics(self, now: Timestamp) -> Seq<TopicStoreView> {
        self.topics.filter(|store: TopicStoreView| !store.stale(now))
    }

    /// The registry after a cleanup at `now`, at which the process takes up
    /// `rss` of memory: the subscriptions that have idled past their time to
    /// live leave; the topics that have idled past theirs leave, and each
    /// leaves the subscriptions on it orphaned; and the messages that have
    /// outlived their topic's message time to live leave the topics that
    /// stay.
    pub open spec fn cleanup(self, now: Timestamp, rss: i64) -> Self {
        RegistryView {
            topics: self.kept_topics(now).map_values(|store: TopicStoreView| store.cleanup(now)),
            subscriptions: self.kept_subscriptions(now).map_values(
                |store: SubscriptionStoreView| self.after_cleanup(store, now),
            ),
            memory_resident_set_size: rss,
            ..self
        }
    }

    /// While the topic `dead` is being deleted and the subscriptions `left`
    /// are still to be deleted: names are unique, `dead` is gone, every
    /// subscription that read the log of `dead` is among `left`, and every
    /// other subscription is in order.
    pub open spec fn deleting(self, dead: Seq<char>, left: Seq<Seq<char>>) -> bool {
        &&& self.distinct()
        &&& !self.has_topic(dead)
        &&& forall|s: int|
            0 <= s < self.subscriptions.len() ==> {
                let sub = (#[trigger] self.subscriptions[s]).subscription;
                if !sub.orphaned && sub.topic == dead {
                    left.contains(sub.name)
                } else {
                    self.in_order(sub)
                }
            }
    }
}

} // verus!
