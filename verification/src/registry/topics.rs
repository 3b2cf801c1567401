//! Registry operations on topics.

use crate::message::fresh_id;
use crate::names;
use crate::registry::lemmas;
use crate::registry::model::{count_up, RegistryView, TopicStoreView};
use crate::registry::{Registry, TopicStore};
use crate::time::{now, Duration, Timestamp};
use crate::message::Envelope;
use crate::topic::{TopicMeta, TopicMetaView};
use vstd::prelude::*;

verus! {

impl Registry {
    /// Create a new topic at the current time, returning true if the
    /// operation resulted in a new topic, and the topic meta data.
    pub fn create_topic(&mut self, topic_name: &str, message_ttl: Duration, ttl: Duration) -> (r: (bool, TopicMeta))
        requires
            old(self).wf(),
        ensures
            final(self).wf(),
            r.0 == !old(self)@.has_topic(topic_name@),
            final(self)@.has_topic(topic_name@),
            r.1@ == TopicMetaView::of(final(self)@.topic(topic_name@).topic),
            final(self)@ == old(self)@.create_topic(topic_name@, message_ttl, ttl, r.1@.created),
    {
        self.create_topic_at(topic_name, message_ttl, ttl, now())
    }

    /// Create a new topic at `now`, returning true if the operation resulted
    /// in a new topic, and the topic meta data. A topic that exists already is
    /// not changed.
    pub fn create_topic_at(
        &mut self,
        topic_name: &str,
        message_ttl: Duration,
        ttl: Duration,
        now: Timestamp,
    ) -> (r: (bool, TopicMeta))
        requires
            old(self).wf(),
        ensures
            final(self).wf(),
            final(self)@ == old(self)@.create_topic(topic_name@, message_ttl, ttl, now),
            r.0 == !old(self)@.has_topic(topic_name@),
            final(self)@.has_topic(topic_name@),
            r.1@ == TopicMetaView::of(final(self)@.topic(topic_name@).topic),
            r.0 ==> r.1@.created == now,
    {
        match self.find_topic(topic_name) {
            Some(t) => (false, TopicMeta::from(&self.topics[t].topic)),
            None => {
                let store = TopicStore::new(topic_name, message_ttl, ttl, now);
                let meta = TopicMeta::from(&store.topic);
                self.topics.push(store);
                self.topics_all_time = count_up(self.topics_all_time, 1);
                proof {
                    let before = old(self)@;
                    let after = self@;
                    assert(after.topics =~= before.topics.push(
                        TopicStoreView::fresh(topic_name@, message_ttl, ttl, now),
                    ));
                    assert(after.subscriptions =~= before.subscriptions);
                    Self::lemma_create_topic_wf(before, topic_name@, message_ttl, ttl, now);
                    names::lemma_position_is(after.topic_names(), topic_name@, before.topics.len() as int);
                }
                (true, meta)
            },
        }
    }

    /// Creating a topic keeps the registry in order.
    pub proof fn lemma_create_topic_wf(
        before: RegistryView,
        name: Seq<char>,
        message_ttl: Duration,
        ttl: Duration,
        now: Timestamp,
    )
        requires
            before.wf(),
        ensures
            before.create_topic(name, message_ttl, ttl, now).wf(),
    {
        let after = before.create_topic(name, message_ttl, ttl, now);
        names::lemma_position(before.topic_names(), name);
        if !before.has_topic(name) {
            assert(after.topic_names() =~= before.topic_names().push(name));
            assert(after.subscription_names() =~= before.subscription_names());
            assert forall|s: int| 0 <= s < after.subscriptions.len() implies after.in_order(
                (#[trigger] after.subscriptions[s]).subscription,
            ) by {
                let sub = before.subscriptions[s].subscription;
                assert(before.in_order(sub));
                if !sub.orphaned {
                    let t = before.topic_index(sub.topic)->0;
                    names::lemma_position(before.topic_names(), sub.topic);
                    names::lemma_position_is(after.topic_names(), sub.topic, t);
                }
            }
        }
    }

    /// Update a topic at the current time and return the topic meta, or None
    /// if the topic does not exist.
    pub fn update_topic(&mut self, topic_name: &str, message_ttl: Option<Duration>, ttl: Option<Duration>) -> (r:
        Option<TopicMeta>)
        requires
            old(self).wf(),
        ensures
            final(self).wf(),
            r is Some == old(self)@.has_topic(topic_name@),
            r matches Some(meta) ==> {
                &&& final(self)@ == old(self)@.update_topic(topic_name@, message_ttl, ttl, meta@.updated)
                &&& meta@ == TopicMetaView::of(final(self)@.topic(topic_name@).topic)
            },
            r is None ==> final(self)@ == old(self)@,
    {
        self.update_topic_at(topic_name, message_ttl, ttl, now())
    }

    /// Update a topic at `now` and return the topic meta, or None if the
    /// topic does not exist. Each setting that is given is set; the topic is
    /// touched whether or not one is given.
    pub fn update_topic_at(
        &mut self,
        topic_name: &str,
        message_ttl: Option<Duration>,
        ttl: Option<Duration>,
        now: Timestamp,
    ) -> (r: Option<TopicMeta>)
        requires
            old(self).wf(),
        ensures
            final(self).wf(),
            final(self)@ == old(self)@.update_topic(topic_name@, message_ttl, ttl, now),
            r is Some == old(self)@.has_topic(topic_name@),
            r matches Some(meta) ==> {
                &&& meta@ == TopicMetaView::of(final(self)@.topic(topic_name@).topic)
                &&& meta@.updated == now
            },
    {
        proof {
            lemma_update_topic_wf(old(self)@, topic_name@, message_ttl, ttl, now);
        }
        match self.find_topic(topic_name) {
            Some(t) => {
                let topic = &mut self.topics[t].topic;
                if let Some(v) = message_ttl {
                    topic.set_message_ttl_at(v, now);
                }
                if let Some(v) = ttl {
                    topic.set_ttl_at(v, now);
                }
                topic.update_at(now);
                let meta = TopicMeta::from(&self.topics[t].topic);
                assert(self@.topics =~= old(self)@.update_topic(topic_name@, message_ttl, ttl, now).topics);
                assert(self@.subscriptions =~= old(self)@.subscriptions);
                Some(meta)
            },
            None => None,
        }
    }

    /// Delete a topic; return false if the topic does not exist. Every
    /// subscription whose name is linked to the topic is deleted with it, and
    /// so is every subscription that reads the topic's log.
    pub fn delete_topic(&mut self, topic_name: &str) -> (r: bool)
        requires
            old(self).wf(),
        ensures
            final(self).wf(),
            final(self)@ == old(self)@.delete_topic(topic_name@),
            r == old(self)@.has_topic(topic_name@),
            !final(self)@.has_topic(topic_name@),
            forall|s: int|
                0 <= s < final(self)@.subscriptions.len() ==> {
                    let sub = (#[trigger] final(self)@.subscriptions[s]).subscription;
                    sub.orphaned || sub.topic != topic_name@
                },
    {
        proof {
            lemmas::lemma_delete_topic(old(self)@, topic_name@);
        }
        match self.find_topic(topic_name) {
            Some(t) => {
                let store = self.topics.remove(t);
                let ghost without = self@;
                let ghost linked = old(self)@.topics[t as int].subscriptions;
                proof {
                    assert(without.topics =~= old(self)@.topics.remove(t as int));
                    assert(without.subscriptions =~= old(self)@.subscriptions);
                    lemmas::lemma_deleting_starts(old(self)@, topic_name@);
                    assert(linked.take(0) =~= Seq::<Seq<char>>::empty());
                    assert(linked.skip(0) =~= linked);
                }
                let mut k: usize = 0;
                while k < store.subscriptions.len()
                    invariant
                        k <= store.subscriptions.len(),
                        names::views(store.subscriptions@) == linked,
                        self@ == without.delete_subscriptions(linked.take(k as int)),
                        self@.deleting(topic_name@, linked.skip(k as int)),
                    decreases store.subscriptions.len() - k,
                {
                    proof {
                        lemmas::lemma_deleting_step(self@, topic_name@, linked.skip(k as int));
                        assert(linked.skip(k as int)[0] == linked[k as int]);
                        assert(linked.skip(k as int).skip(1) =~= linked.skip(k + 1));
                        assert(linked.take(k + 1).drop_last() =~= linked.take(k as int));
                        assert(linked.take(k + 1).last() == linked[k as int]);
                    }
                    self.delete_subscription(store.subscriptions[k].as_str());
                    k = k + 1;
                }
                assert(linked.take(k as int) =~= linked);
                true
            },
            None => false,
        }
    }

    /// Get the topic meta data, or None if the topic does not exist.
    pub fn get_topic(&self, topic_name: &str) -> (r: Option<TopicMeta>)
        requires
            self.wf(),
        ensures
            r is Some == self@.has_topic(topic_name@),
            r matches Some(meta) ==> meta@ == TopicMetaView::of(self@.topic(topic_name@).topic),
    {
        match self.find_topic(topic_name) {
            Some(t) => Some(TopicMeta::from(&self.topics[t].topic)),
            None => None,
        }
    }

    /// Get a list of all topic meta data, in the order in which the topics
    /// were created.
    pub fn list_topics(&self) -> (r: Vec<TopicMeta>)
        ensures
            r@.len() == self@.topics.len(),
            forall|t: int| 0 <= t < r@.len() ==> (#[trigger] r@[t])@ == TopicMetaView::of(self@.topics[t].topic),
    {
        let mut list: Vec<TopicMeta> = Vec::with_capacity(self.topics.len());
        let mut t: usize = 0;
        while t < self.topics.len()
            invariant
                t <= self.topics.len(),
                list@.len() == t,
                forall|k: int| 0 <= k < t ==> (#[trigger] list@[k])@ == TopicMetaView::of(self@.topics[k].topic),
            decreases self.topics.len() - t,
        {
            list.push(TopicMeta::from(&self.topics[t].topic));
            t = t + 1;
        }
        list
    }

    /// Return a list of subscription names that are linked to this topic, in
    /// the order in which they were linked, or None if the topic does not
    /// exist.
    pub fn list_topic_subscriptions(&self, topic_name: &str) -> (r: Option<Vec<String>>)
        requires
            self.wf(),
        ensures
            r is Some == self@.has_topic(topic_name@),
            r matches Some(list) ==> names::views(list@) == self@.topic(topic_name@).subscriptions,
    {
        match self.find_topic(topic_name) {
            Some(t) => Some(names::copy(&self.topics[t].subscriptions)),
            None => None,
        }
    }

    /// Whether `count` more messages fit the topic `topic_name`: whether its
    /// log has that many sequence numbers left. True where there is no such
    /// topic.
    pub fn can_publish(&self, topic_name: &str, count: usize) -> (r: bool)
        requires
            self.wf(),
        ensures
            r == self@.can_publish(topic_name@, count as nat),
    {
        match self.find_topic(topic_name) {
            Some(t) => {
                let store = &self.topics[t];
                assert(self@.topics[t as int].wf());
                count <= usize::MAX - store.topic.log.dropped_count() - store.topic.log.len()
            },
            None => true,
        }
    }

    /// Publish a list of data as messages to a topic, each at the time the
    /// system clock shows when its turn comes; return the list of published
    /// message ids, in the order of the data, or None if the topic does not
    /// exist.
    pub fn publish(&mut self, topic_name: &str, data: Vec<String>) -> (r: Option<Vec<u128>>)
        requires
            old(self).wf(),
            old(self)@.can_publish(topic_name@, data@.len()),
        ensures
            final(self).wf(),
            r is Some == old(self)@.has_topic(topic_name@),
            r matches Some(ids) ==> {
                &&& ids@.len() == data@.len()
                &&& final(self)@.has_topic(topic_name@)
                &&& exists|times: Seq<Timestamp>|
                    times.len() == data@.len() && final(self)@ == #[trigger] old(self)@.publish(
                        topic_name@,
                        ids@,
                        times,
                        data@,
                    )
            },
            r is None ==> final(self)@ == old(self)@,
    {
        let (r, Ghost(times)) = self.publish_each(topic_name, data, None);
        r
    }

    /// Publish a list of data as messages to a topic, all of them at `now`;
    /// return the list of published message ids, in the order of the data,
    /// or None if the topic does not exist.
    pub fn publish_at(&mut self, topic_name: &str, data: Vec<String>, now: Timestamp) -> (r: Option<Vec<u128>>)
        requires
            old(self).wf(),
            old(self)@.can_publish(topic_name@, data@.len()),
        ensures
            final(self).wf(),
            r is Some == old(self)@.has_topic(topic_name@),
            r matches Some(ids) ==> {
                &&& ids@.len() == data@.len()
                &&& final(self)@ == old(self)@.publish(
                    topic_name@,
                    ids@,
                    RegistryView::all_at(data@.len(), now),
                    data@,
                )
                &&& final(self)@.has_topic(topic_name@)
                &&& data@.len() > 0 ==> final(self)@.topic(topic_name@).topic.updated == now
            },
            r is None ==> final(self)@ == old(self)@,
    {
        let (r, Ghost(times)) = self.publish_each(topic_name, data, Some(now));
        proof {
            if r is Some {
                assert(times =~= RegistryView::all_at(data@.len(), now));
                crate::names::lemma_position(old(self)@.topic_names(), topic_name@);
                lemma_publish_wf(old(self)@, topic_name@, r->0@, times, data@);
            }
        }
        r
    }

    /// Publishes each of `data` under a fresh identifier, at `at` if that is
    /// given and else at the time the system clock shows when its turn comes.
    /// Returns the identifiers, and the times for the record.
    fn publish_each(&mut self, topic_name: &str, data: Vec<String>, at: Option<Timestamp>) -> (r: (
        Option<Vec<u128>>,
        Ghost<Seq<Timestamp>>,
    ))
        requires
            old(self).wf(),
            old(self)@.can_publish(topic_name@, data@.len()),
        ensures
            final(self).wf(),
            r.0 is Some == old(self)@.has_topic(topic_name@),
            r.0 matches Some(ids) ==> {
                &&& ids@.len() == data@.len()
                &&& r.1@.len() == data@.len()
                &&& final(self)@ == old(self)@.publish(topic_name@, ids@, r.1@, data@)
                &&& final(self)@.has_topic(topic_name@)
                &&& at matches Some(now) ==> forall|k: int| 0 <= k < r.1@.len() ==> r.1@[k] == now
            },
            r.0 is None ==> final(self)@ == old(self)@,
    {
        match self.find_topic(topic_name) {
            Some(t) => {
                let count = data.len();
                let mut ids: Vec<u128> = Vec::with_capacity(count);
                let ghost mut times: Seq<Timestamp> = Seq::empty();
                let ghost before = old(self)@.topics[t as int];
                assert(before.wf());
                for datum in it: data
                    invariant
                        it.seq() == data@,
                        t < self.topics.len(),
                        t < old(self)@.topics.len(),
                        before == old(self)@.topics[t as int],
                        ids@.len() == it.index(),
                        times.len() == it.index(),
                        at matches Some(now) ==> forall|k: int| 0 <= k < times.len() ==> times[k] == now,
                        before.topic.log.end() + data@.len() <= usize::MAX,
                        self@.subscriptions == old(self)@.subscriptions,
                        self@.topics_all_time == old(self)@.topics_all_time,
                        self@.subscriptions_all_time == old(self)@.subscriptions_all_time,
                        self@.memory_resident_set_size == old(self)@.memory_resident_set_size,
                        self@.start_time == old(self)@.start_time,
                        self@.topics == old(self)@.topics.update(
                            t as int,
                            TopicStoreView {
                                topic: before.topic.publish_all(ids@, times, data@.take(it.index() as int)),
                                ..before
                            },
                        ),
                {
                    let ghost done = it.index() as int;
                    let ghost stores = self.topics@;
                    let ghost start = self@;
                    let ghost topic_before = self@.topics[t as int].topic;
                    let ghost ids_before = ids@;
                    let ghost times_before = times;
                    let id = fresh_id();
                    let time = match at {
                        Some(now) => now,
                        None => now(),
                    };
                    assert(datum == data@[done]);
                    assert(topic_before == before.topic.publish_all(ids@, times, data@.take(done)));
                    assert(data@.take(done).len() == done);
                    assert(topic_before.log.end() == before.topic.log.end() + done);
                    self.topics[t].topic.publish_with(id, time, datum);
                    ids.push(id);
                    proof {
                        times = times.push(time);
                        let more = data@.take(done + 1);
                        assert(more.len() == done + 1);
                        let grown = before.topic.publish_all(ids@, times, more);
                        assert(grown.log.items =~= topic_before.log.items.push(
                            Envelope { id, time, data: datum },
                        )) by {
                            assert forall|k: int| 0 <= k < done implies ids@[k] == ids_before[k] && times[k]
                                == times_before[k] && more[k] == data@.take(done)[k] by {}
                        }
                        assert(self@.topics[t as int].topic.log.items =~= grown.log.items);
                        assert(self@.topics[t as int].topic == grown);
                        assert(self@.topics[t as int] == (TopicStoreView { topic: grown, ..before }));
                        assert(self@.topics.len() == start.topics.len());
                        assert forall|j: int| 0 <= j < self@.topics.len() && j != t implies self@.topics[j]
                            == old(self)@.topics[j] by {
                            assert(self.topics@[j] == stores[j]);
                            assert(start.topics[j] == stores[j]@);
                            assert(start.topics[j] == old(self)@.topics[j]);
                        }
                        assert(self@.topics =~= old(self)@.topics.update(
                            t as int,
                            TopicStoreView { topic: grown, ..before },
                        ));
                    }
                }
                let ghost published = self@;
                let ghost stores = self.topics@;
                let store = &mut self.topics[t];
                store.messages_all_time = count_up(store.messages_all_time, count);
                proof {
                    assert(data@.take(data@.len() as int) =~= data@);
                    let after = old(self)@.publish(topic_name@, ids@, times, data@);
                    crate::names::lemma_position(old(self)@.topic_names(), topic_name@);
                    assert(published.topics[t as int].topic == before.topic.publish_all(ids@, times, data@));
                    assert(self@.topics[t as int] == after.topics[t as int]);
                    assert forall|j: int| 0 <= j < self@.topics.len() && j != t implies self@.topics[j]
                        == after.topics[j] by {
                        assert(self.topics@[j] == stores[j]);
                        assert(published.topics[j] == stores[j]@);
                    }
                    assert(self@.topics =~= after.topics);
                    lemma_publish_wf(old(self)@, topic_name@, ids@, times, data@);
                }
                (Some(ids), Ghost(times))
            },
            None => (None, Ghost(Seq::empty())),
        }
    }
}

/// Updating a topic keeps the registry in order and the topic under its name.
pub proof fn lemma_update_topic_wf(
    before: RegistryView,
    name: Seq<char>,
    message_ttl: Option<Duration>,
    ttl: Option<Duration>,
    now: Timestamp,
)
    requires
        before.wf(),
    ensures
        before.update_topic(name, message_ttl, ttl, now).wf(),
        before.update_topic(name, message_ttl, ttl, now).topic_index(name) == before.topic_index(name),
{
    let after = before.update_topic(name, message_ttl, ttl, now);
    crate::names::lemma_position(before.topic_names(), name);
    if let Some(t) = before.topic_index(name) {
        lemmas::lemma_same_topic_names(before, after, t, after.topics[t]);
        assert(after.subscription_names() =~= before.subscription_names());
        assert forall|s: int| 0 <= s < after.subscriptions.len() implies after.in_order(
            (#[trigger] after.subscriptions[s]).subscription,
        ) by {
            let sub = before.subscriptions[s].subscription;
            assert(before.in_order(sub));
            lemmas::lemma_stays_in_order(before, after, t, after.topics[t], sub);
        }
    }
}

/// Publishing keeps the registry in order and the topic under its name.
pub proof fn lemma_publish_wf(
    before: RegistryView,
    name: Seq<char>,
    ids: Seq<u128>,
    times: Seq<Timestamp>,
    data: Seq<String>,
)
    requires
        before.wf(),
        before.can_publish(name, data.len()),
        ids.len() == data.len(),
        times.len() == data.len(),
    ensures
        before.publish(name, ids, times, data).wf(),
        before.publish(name, ids, times, data).topic_index(name) == before.topic_index(name),
{
    let after = before.publish(name, ids, times, data);
    crate::names::lemma_position(before.topic_names(), name);
    if let Some(t) = before.topic_index(name) {
        lemmas::lemma_same_topic_names(before, after, t, after.topics[t]);
        assert(after.subscription_names() =~= before.subscription_names());
        let log = before.topics[t].topic.log;
        let grown = after.topics[t].topic.log;
        assert(grown.extends(log));
        assert(before.topics[t].wf());
        assert forall|s: int| 0 <= s < after.subscriptions.len() implies after.in_order(
            (#[trigger] after.subscriptions[s]).subscription,
        ) by {
            let sub = before.subscriptions[s].subscription;
            assert(before.in_order(sub));
            if sub.wf(log) {
                crate::subscription::lemma_wf_extends(sub, log, grown);
            }
            lemmas::lemma_stays_in_order(before, after, t, after.topics[t], sub);
        }
    }
}

} // verus!
