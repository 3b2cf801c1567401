//! Registry operations on subscriptions.

use crate::names;
use crate::registry::lemmas;
use crate::registry::model::{count_up, RegistryView, SubscriptionStoreView};
use crate::registry::{Registry, SubscriptionStore};
use crate::commit_log::CursorView;
use crate::message::Message;
use crate::subscription::{
    lemma_ack_many_frame, lemma_pull_many_frame, lemma_pull_orphaned, lemma_retries_bound, retries,
    Subscription, SubscriptionMeta, SubscriptionMetaView, SubscriptionView,
};
use crate::time::{now, Duration, Timestamp};
use vstd::prelude::*;

verus! {

impl Registry {
    /// Create a new subscription at the current time, returning true if the
    /// operation resulted in a new subscription, and the subscription meta
    /// data, or None if the topic does not exist.
    pub fn create_subscription(
        &mut self,
        subscription_name: &str,
        topic_name: &str,
        ack_deadline: Duration,
        ttl: Duration,
        historical: bool,
    ) -> (r: Option<(bool, SubscriptionMeta)>)
        requires
            old(self).wf(),
        ensures
            final(self).wf(),
            r is Some == old(self)@.has_topic(topic_name@),
            r is None ==> final(self)@ == old(self)@,
            r matches Some((created, meta)) ==> {
                &&& created == !old(self)@.has_subscription(subscription_name@)
                &&& final(self)@ == old(self)@.create_subscription(
                    subscription_name@,
                    topic_name@,
                    ack_deadline,
                    ttl,
                    historical,
                    meta@.created,
                )
                &&& final(self)@.has_subscription(subscription_name@)
                &&& meta@ == SubscriptionMetaView::of(final(self)@.subscription(subscription_name@).subscription)
            },
    {
        self.create_subscription_at(subscription_name, topic_name, ack_deadline, ttl, historical, now())
    }

    /// Create a new subscription at `now`, returning true if the operation
    /// resulted in a new subscription, and the subscription meta data, or
    /// None if the topic does not exist. A new subscription starts at the
    /// oldest message of the topic if `historical`, and behind its newest
    /// message if not. A subscription that exists already is not changed.
    /// In both cases the name is linked to the topic.
    pub fn create_subscription_at(
        &mut self,
        subscription_name: &str,
        topic_name: &str,
        ack_deadline: Duration,
        ttl: Duration,
        historical: bool,
        now: Timestamp,
    ) -> (r: Option<(bool, SubscriptionMeta)>)
        requires
            old(self).wf(),
        ensures
            final(self).wf(),
            final(self)@ == old(self)@.create_subscription(
                subscription_name@,
                topic_name@,
                ack_deadline,
                ttl,
                historical,
                now,
            ),
            r is Some == old(self)@.has_topic(topic_name@),
            r matches Some((created, meta)) ==> {
                &&& created == !old(self)@.has_subscription(subscription_name@)
                &&& final(self)@.has_subscription(subscription_name@)
                &&& meta@ == SubscriptionMetaView::of(final(self)@.subscription(subscription_name@).subscription)
                &&& created ==> meta@.created == now
            },
    {
        proof {
            lemma_create_subscription_wf(
                old(self)@,
                subscription_name@,
                topic_name@,
                ack_deadline,
                ttl,
                historical,
                now,
            );
        }
        let t = match self.find_topic(topic_name) {
            Some(t) => t,
            None => {
                return None;
            },
        };
        proof {
            names::lemma_position(old(self)@.topic_names(), topic_name@);
            assert(old(self)@.topics[t as int].wf());
        }
        let ghost at: int = match old(self)@.subscription_index(subscription_name@) {
            Some(s) => s,
            None => old(self)@.subscriptions.len() as int,
        };
        let (created, meta) = match self.find_subscription(subscription_name) {
            Some(s) => (false, SubscriptionMeta::from(&self.subscriptions[s].subscription)),
            None => {
                let topic = &self.topics[t].topic;
                let subscription = if historical {
                    Subscription::new_head_at(subscription_name, topic, ack_deadline, ttl, now)
                } else {
                    Subscription::new_tail_at(subscription_name, topic, ack_deadline, ttl, now)
                };
                let meta = SubscriptionMeta::from(&subscription);
                self.subscriptions.push(SubscriptionStore::new(subscription));
                self.subscriptions_all_time = count_up(self.subscriptions_all_time, 1);
                (true, meta)
            },
        };
        let ghost added = self@;
        let ghost stores = self.topics@;
        proof {
            assert(added.topics =~= old(self)@.topics);
            if created {
                assert(added.subscriptions =~= old(self)@.subscriptions.push(added.subscriptions.last()));
            } else {
                assert(added.subscriptions =~= old(self)@.subscriptions);
            }
        }
        names::insert(&mut self.topics[t].subscriptions, subscription_name);
        proof {
            let after = old(self)@.create_subscription(
                subscription_name@,
                topic_name@,
                ack_deadline,
                ttl,
                historical,
                now,
            );
            assert(self@.subscriptions =~= added.subscriptions);
            assert forall|j: int| 0 <= j < self@.topics.len() implies self@.topics[j] == after.topics[j] by {
                if j != t {
                    assert(self.topics@[j] == stores[j]);
                }
            }
            assert(self@.topics =~= after.topics);
            assert(self@ == after);
            names::lemma_position(old(self)@.subscription_names(), subscription_name@);
            assert(after.subscription_names()[at] == subscription_name@);
            names::lemma_position_is(after.subscription_names(), subscription_name@, at);
        }
        Some((created, meta))
    }

    /// Update a subscription at the current time and return the
    /// subscription meta data, or None if the subscription does not exist.
    pub fn update_subscription(
        &mut self,
        subscription_name: &str,
        ack_deadline: Option<Duration>,
        ttl: Option<Duration>,
    ) -> (r: Option<SubscriptionMeta>)
        requires
            old(self).wf(),
        ensures
            final(self).wf(),
            r is Some == old(self)@.has_subscription(subscription_name@),
            r is None ==> final(self)@ == old(self)@,
            r matches Some(meta) ==> {
                &&& final(self)@ == old(self)@.update_subscription(
                    subscription_name@,
                    ack_deadline,
                    ttl,
                    meta@.updated,
                )
                &&& meta@ == SubscriptionMetaView::of(final(self)@.subscription(subscription_name@).subscription)
            },
    {
        self.update_subscription_at(subscription_name, ack_deadline, ttl, now())
    }

    /// Update a subscription at `now` and return the subscription meta
    /// data, or None if the subscription does not exist. Each setting that
    /// is given is set; the subscription is touched whether or not one is
    /// given.
    pub fn update_subscription_at(
        &mut self,
        subscription_name: &str,
        ack_deadline: Option<Duration>,
        ttl: Option<Duration>,
        now: Timestamp,
    ) -> (r: Option<SubscriptionMeta>)
        requires
            old(self).wf(),
        ensures
            final(self).wf(),
            final(self)@ == old(self)@.update_subscription(subscription_name@, ack_deadline, ttl, now),
            r is Some == old(self)@.has_subscription(subscription_name@),
            r matches Some(meta) ==> {
                &&& meta@ == SubscriptionMetaView::of(final(self)@.subscription(subscription_name@).subscription)
                &&& meta@.updated == now
            },
    {
        match self.find_subscription(subscription_name) {
            Some(s) => {
                let ghost stores = self.subscriptions@;
                let subscription = &mut self.subscriptions[s].subscription;
                if let Some(v) = ack_deadline {
                    subscription.set_ack_deadline_at(v, now);
                }
                if let Some(v) = ttl {
                    subscription.set_ttl_at(v, now);
                }
                subscription.update_at(now);
                let meta = SubscriptionMeta::from(&self.subscriptions[s].subscription);
                proof {
                    let after = old(self)@.update_subscription(subscription_name@, ack_deadline, ttl, now);
                    names::lemma_position(old(self)@.subscription_names(), subscription_name@);
                    assert forall|j: int| 0 <= j < self@.subscriptions.len() implies self@.subscriptions[j]
                        == after.subscriptions[j] by {
                        if j != s {
                            assert(self.subscriptions@[j] == stores[j]);
                        }
                    }
                    assert(self@.subscriptions =~= after.subscriptions);
                    assert(self@.topics =~= old(self)@.topics);
                    assert(old(self)@.in_order(old(self)@.subscriptions[s as int].subscription));
                    lemmas::lemma_with_subscription_wf(old(self)@, after, s as int, after.subscriptions[s as int]);
                }
                Some(meta)
            },
            None => None,
        }
    }

    /// Get the subscription meta data, or None if the subscription does not
    /// exist.
    pub fn get_subscription(&self, subscription_name: &str) -> (r: Option<SubscriptionMeta>)
        requires
            self.wf(),
        ensures
            r is Some == self@.has_subscription(subscription_name@),
            r matches Some(meta) ==> meta@ == SubscriptionMetaView::of(
                self@.subscription(subscription_name@).subscription,
            ),
    {
        match self.find_subscription(subscription_name) {
            Some(s) => Some(SubscriptionMeta::from(&self.subscriptions[s].subscription)),
            None => None,
        }
    }

    /// Get a list of all subscription meta data, in the order in which the
    /// subscriptions were created.
    pub fn list_subscriptions(&self) -> (r: Vec<SubscriptionMeta>)
        ensures
            r@.len() == self@.subscriptions.len(),
            forall|s: int|
                0 <= s < r@.len() ==> (#[trigger] r@[s])@ == SubscriptionMetaView::of(
                    self@.subscriptions[s].subscription,
                ),
    {
        let mut list: Vec<SubscriptionMeta> = Vec::with_capacity(self.subscriptions.len());
        let mut s: usize = 0;
        while s < self.subscriptions.len()
            invariant
                s <= self.subscriptions.len(),
                list@.len() == s,
                forall|k: int|
                    0 <= k < s ==> (#[trigger] list@[k])@ == SubscriptionMetaView::of(
                        self@.subscriptions[k].subscription,
                    ),
            decreases self.subscriptions.len() - s,
        {
            list.push(SubscriptionMeta::from(&self.subscriptions[s].subscription));
            s = s + 1;
        }
        list
    }

    /// Retrieve messages from a subscription at the current time; return
    /// the list of messages, or None if the subscription does not exist.
    pub fn pull(&mut self, subscription_name: &str, max_messages: usize) -> (r: Option<Vec<Message>>)
        requires
            old(self).wf(),
        ensures
            final(self).wf(),
            r is Some == old(self)@.has_subscription(subscription_name@),
            r is None ==> final(self)@ == old(self)@,
            r matches Some(messages) ==> {
                &&& final(self)@.has_subscription(subscription_name@)
                &&& max_messages == 0 ==> messages@.len() == 0 && final(self)@ == old(self)@
                &&& max_messages > 0 ==> {
                    let now = final(self)@.subscription(subscription_name@).subscription.updated;
                    &&& messages@ == old(self)@.pulled(subscription_name@, max_messages as nat, now)
                    &&& final(self)@ == old(self)@.pull(subscription_name@, max_messages as nat, now)
                }
            },
    {
        self.pull_at(subscription_name, max_messages, now())
    }

    /// Retrieve messages from a subscription at `now`; return the list of
    /// messages, or None if the subscription does not exist. The
    /// subscription is pulled until it hands out nothing or `max_messages`
    /// messages have been handed out; with `max_messages` zero it is not
    /// pulled at all. A subscription whose topic is gone hands out nothing,
    /// and its one pull clears its record.
    pub fn pull_at(&mut self, subscription_name: &str, max_messages: usize, now: Timestamp) -> (r: Option<
        Vec<Message>,
    >)
        requires
            old(self).wf(),
        ensures
            final(self).wf(),
            final(self)@ == old(self)@.pull(subscription_name@, max_messages as nat, now),
            r is Some == old(self)@.has_subscription(subscription_name@),
            r matches Some(messages) ==> {
                &&& messages@ == old(self)@.pulled(subscription_name@, max_messages as nat, now)
                &&& messages@.len() <= max_messages
                &&& final(self)@.has_subscription(subscription_name@)
                &&& max_messages == 0 ==> final(self)@ == old(self)@
                &&& max_messages > 0 ==> final(self)@.subscription(subscription_name@).subscription.updated
                    == now
            },
    {
        let s = match self.find_subscription(subscription_name) {
            Some(s) => s,
            None => {
                return None;
            },
        };
        let ghost start = old(self)@.subscriptions[s as int].subscription;
        let ghost max = max_messages as nat;
        proof {
            names::lemma_position(old(self)@.subscription_names(), subscription_name@);
            assert(old(self)@.in_order(start));
            names::lemma_position(old(self)@.topic_names(), start.topic);
        }
        if self.subscriptions[s].subscription.is_orphaned() {
            let ghost stores = self.subscriptions@;
            if max_messages > 0 {
                self.subscriptions[s].subscription.pull_orphaned_at(now);
            }
            proof {
                let after = old(self)@.pull(subscription_name@, max, now);
                lemma_pull_orphaned(start, now);
                assert forall|j: int| 0 <= j < self@.subscriptions.len() implies self@.subscriptions[j]
                    == after.subscriptions[j] by {
                    if j != s {
                        assert(self.subscriptions@[j] == stores[j]);
                    }
                }
                assert(self@.subscriptions =~= after.subscriptions);
                assert(self@.topics =~= old(self)@.topics);
                assert(self@ == after);
                lemmas::lemma_with_subscription_wf(old(self)@, after, s as int, after.subscriptions[s as int]);
                if max == 0 {
                    assert(after.subscriptions =~= old(self)@.subscriptions);
                }
            }
            return Some(Vec::new());
        }
        let t = match self.find_topic(self.subscriptions[s].subscription.topic.as_str()) {
            Some(t) => t,
            None => {
                // Not reached: a subscription that is not orphaned has its topic.
                return Some(Vec::new());
            },
        };
        let ghost log = old(self)@.topics[t as int].topic.log;
        assert(old(self)@.topics[t as int].wf());
        let mut messages: Vec<Message> = Vec::new();
        let mut retried: usize = 0;
        proof {
            assert(messages@ + start.pull_many(log, now, max).1 =~= start.pull_many(log, now, max).1);
        }
        loop
            invariant_except_break
                start.pull_many(log, now, max).0 == self.subscriptions@[s as int].subscription@.pull_many(
                    log,
                    now,
                    (max - messages@.len()) as nat,
                ).0,
                start.pull_many(log, now, max).1 == messages@ + self.subscriptions@[s as int].subscription@.pull_many(
                    log,
                    now,
                    (max - messages@.len()) as nat,
                ).1,
            invariant
                s < self.subscriptions.len(),
                t < self.topics.len(),
                self.topics == old(self).topics,
                self.subscriptions@.len() == old(self).subscriptions@.len(),
                forall|j: int|
                    0 <= j < self.subscriptions@.len() && j != s ==> self.subscriptions@[j] == old(
                        self,
                    ).subscriptions@[j],
                self.subscriptions@[s as int].pulled_all_time == old(self).subscriptions@[s as int].pulled_all_time,
                self.subscriptions@[s as int].pulled_retries_all_time == old(
                    self,
                ).subscriptions@[s as int].pulled_retries_all_time,
                self.subscriptions@[s as int].acks_all_time == old(self).subscriptions@[s as int].acks_all_time,
                self.subscriptions@[s as int].acked_all_time == old(self).subscriptions@[s as int].acked_all_time,
                self.topics_all_time == old(self).topics_all_time,
                self.subscriptions_all_time == old(self).subscriptions_all_time,
                self.memory_resident_set_size == old(self).memory_resident_set_size,
                self.start_time == old(self).start_time,
                self.topics@[t as int].topic@.log == log,
                log.end() <= usize::MAX,
                self.subscriptions@[s as int].subscription@.wf(log),
                max == max_messages,
                messages@.len() <= max,
                retried == retries(messages@),
            ensures
                start.pull_many(log, now, max).0 == self.subscriptions@[s as int].subscription@,
                start.pull_many(log, now, max).1 == messages@,
            decreases max_messages - messages.len(),
        {
            if messages.len() >= max_messages {
                assert(messages@ + Seq::<Message>::empty() =~= messages@);
                break;
            }
            let ghost current = self.subscriptions@[s as int].subscription@;
            let ghost stores = self.subscriptions@;
            let ghost so_far = messages@;
            match self.subscriptions[s].subscription.pull_at(&self.topics[t].topic, now) {
                Some(message) => {
                    if message.tries > 1 {
                        proof {
                            lemma_retries_bound(messages@);
                        }
                        retried = retried + 1;
                    }
                    messages.push(message);
                    proof {
                        assert(messages@.drop_last() =~= so_far);
                        let rest = current.pull(log, now).0.pull_many(log, now, (max - messages@.len()) as nat).1;
                        assert(so_far + (seq![message] + rest) =~= messages@ + rest);
                        assert forall|j: int| 0 <= j < self.subscriptions@.len() && j != s implies self.subscriptions@[j]
                            == old(self).subscriptions@[j] by {
                            assert(self.subscriptions@[j] == stores[j]);
                        }
                    }
                },
                None => {
                    proof {
                        assert(so_far + Seq::<Message>::empty() =~= so_far);
                        assert forall|j: int| 0 <= j < self.subscriptions@.len() && j != s implies self.subscriptions@[j]
                            == old(self).subscriptions@[j] by {
                            assert(self.subscriptions@[j] == stores[j]);
                        }
                    }
                    break;
                },
            }
        }
        let ghost stores = self.subscriptions@;
        let store = &mut self.subscriptions[s];
        store.pulled_all_time = count_up(store.pulled_all_time, messages.len());
        store.pulled_retries_all_time = count_up(store.pulled_retries_all_time, retried);
        proof {
            let after = old(self)@.pull(subscription_name@, max, now);
            lemma_pull_many_frame(start, log, now, max);
            assert forall|j: int| 0 <= j < self@.subscriptions.len() implies self@.subscriptions[j]
                == after.subscriptions[j] by {
                if j != s {
                    assert(self.subscriptions@[j] == stores[j]);
                }
            }
            assert(self@.subscriptions =~= after.subscriptions);
            assert(self@.topics =~= old(self)@.topics);
            assert(self@ == after);
            lemmas::lemma_with_subscription_wf(old(self)@, after, s as int, after.subscriptions[s as int]);
            if max == 0 {
                assert(after.subscriptions =~= old(self)@.subscriptions);
            }
        }
        Some(messages)
    }

    /// Ack message ids at the current time, returning the list of
    /// successfully acked ids, or None if the subscription does not exist.
    pub fn ack(&mut self, subscription_name: &str, ids: &[u128]) -> (r: Option<Vec<u128>>)
        requires
            old(self).wf(),
        ensures
            final(self).wf(),
            r is Some == old(self)@.has_subscription(subscription_name@),
            r is None ==> final(self)@ == old(self)@,
            r matches Some(acked) ==> {
                &&& final(self)@.has_subscription(subscription_name@)
                &&& ids@.len() == 0 ==> acked@.len() == 0 && final(self)@ == old(self)@
                &&& ids@.len() > 0 ==> {
                    let now = final(self)@.subscription(subscription_name@).subscription.updated;
                    &&& acked@ == old(self)@.acked(subscription_name@, ids@, now)
                    &&& final(self)@ == old(self)@.ack(subscription_name@, ids@, now)
                }
            },
    {
        self.ack_at(subscription_name, ids, now())
    }

    /// Ack message ids at `now`, returning the list of successfully acked
    /// ids, in the order they were given, or None if the subscription does
    /// not exist.
    pub fn ack_at(&mut self, subscription_name: &str, ids: &[u128], now: Timestamp) -> (r: Option<Vec<u128>>)
        requires
            old(self).wf(),
        ensures
            final(self).wf(),
            final(self)@ == old(self)@.ack(subscription_name@, ids@, now),
            r is Some == old(self)@.has_subscription(subscription_name@),
            r matches Some(acked) ==> {
                &&& acked@ == old(self)@.acked(subscription_name@, ids@, now)
                &&& final(self)@.has_subscription(subscription_name@)
                &&& ids@.len() == 0 ==> final(self)@ == old(self)@
                &&& ids@.len() > 0 ==> final(self)@.subscription(subscription_name@).subscription.updated == now
            },
    {
        match self.find_subscription(subscription_name) {
            Some(s) => {
                let ghost stores = self.subscriptions@;
                let ghost start = old(self)@.subscriptions[s as int].subscription;
                let store = &mut self.subscriptions[s];
                let acked = store.subscription.ack_many_at(ids, now);
                store.acks_all_time = count_up(store.acks_all_time, ids.len());
                store.acked_all_time = count_up(store.acked_all_time, acked.len());
                proof {
                    let after = old(self)@.ack(subscription_name@, ids@, now);
                    names::lemma_position(old(self)@.subscription_names(), subscription_name@);
                    lemma_ack_many_frame(start, ids@, now);
                    assert forall|j: int| 0 <= j < self@.subscriptions.len() implies self@.subscriptions[j]
                        == after.subscriptions[j] by {
                        if j != s {
                            assert(self.subscriptions@[j] == stores[j]);
                        }
                    }
                    assert(self@.subscriptions =~= after.subscriptions);
                    assert(self@.topics =~= old(self)@.topics);
                    assert(old(self)@.in_order(start));
                    lemmas::lemma_with_subscription_wf(old(self)@, after, s as int, after.subscriptions[s as int]);
                    if ids@.len() == 0 {
                        assert(after.subscriptions =~= old(self)@.subscriptions);
                    }
                }
                Some(acked)
            },
            None => None,
        }
    }

    /// Delete a subscription; return false if the subscription does not
    /// exist. The name also leaves the links of the topic that the
    /// subscription names.
    pub fn delete_subscription(&mut self, subscription_name: &str) -> (r: bool)
        requires
            old(self)@.distinct(),
        ensures
            final(self)@.distinct(),
            old(self).wf() ==> final(self).wf(),
            r == old(self)@.has_subscription(subscription_name@),
            final(self)@ == old(self)@.delete_subscription(subscription_name@),
            !final(self)@.has_subscription(subscription_name@),
    {
        proof {
            lemma_delete_subscription_all(old(self)@, subscription_name@);
        }
        match self.find_subscription(subscription_name) {
            Some(s) => {
                let store = self.subscriptions.remove(s);
                let ghost without = self@;
                assert(without.subscriptions =~= old(self)@.subscriptions.remove(s as int));
                assert(without.topics =~= old(self)@.topics);
                if let Some(t) = self.find_topic(store.subscription.topic.as_str()) {
                    assert(self@.topics[t as int].wf());
                    names::remove(&mut self.topics[t].subscriptions, subscription_name);
                    assert(self@.topics =~= without.unlink(t as int, subscription_name@).topics);
                    assert(self@.subscriptions =~= without.subscriptions);
                }
                true
            },
            None => false,
        }
    }
}

/// Creating a subscription keeps the registry in order.
pub proof fn lemma_create_subscription_wf(
    before: RegistryView,
    name: Seq<char>,
    topic: Seq<char>,
    ack_deadline: Duration,
    ttl: Duration,
    historical: bool,
    now: Timestamp,
)
    requires
        before.wf(),
    ensures
        before.create_subscription(name, topic, ack_deadline, ttl, historical, now).wf(),
{
    let after = before.create_subscription(name, topic, ack_deadline, ttl, historical, now);
    names::lemma_position(before.topic_names(), topic);
    names::lemma_position(before.subscription_names(), name);
    if let Some(t) = before.topic_index(topic) {
        let linked = before.topics[t].subscriptions;
        assert(before.topics[t].wf());
        names::lemma_with_name(linked, name);
        assert(after.topic_names() =~= before.topic_names());
        if before.has_subscription(name) {
            assert(after.subscription_names() =~= before.subscription_names());
        } else {
            names::lemma_position_after_push(before.subscription_names(), name, name);
            assert(after.subscription_names() =~= before.subscription_names().push(name));
        }
        assert forall|s: int| 0 <= s < after.subscriptions.len() implies after.in_order(
            (#[trigger] after.subscriptions[s]).subscription,
        ) by {
            let sub = after.subscriptions[s].subscription;
            if s < before.subscriptions.len() {
                assert(sub == before.subscriptions[s].subscription);
                assert(before.in_order(sub));
                names::lemma_position(before.topic_names(), sub.topic);
            } else {
                names::lemma_position_is(after.topic_names(), topic, t);
            }
        }
    }
}

/// What deleting a subscription keeps and brings about.
pub proof fn lemma_delete_subscription_all(before: RegistryView, name: Seq<char>)
    requires
        before.distinct(),
    ensures
        before.delete_subscription(name).distinct(),
        before.wf() ==> before.delete_subscription(name).wf(),
        !before.delete_subscription(name).has_subscription(name),
{
    lemmas::lemma_delete_subscription_distinct(before, name);
    lemmas::lemma_delete_subscription_left(before, name);
    if before.wf() {
        lemmas::lemma_delete_subscription_wf(before, name);
    }
}

} // verus!
