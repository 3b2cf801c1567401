//! The periodic cleanup of the registry.

use crate::commit_log::lemma_truncate_extends;
use crate::names;
use crate::registry::model::{
    capped, count_up, expired_total, RegistryView, SubscriptionStoreView, TopicStoreView,
};
use crate::registry::{Registry, SubscriptionStore, TopicStore};
use crate::subscription::lemma_wf_extends;
use crate::time::{now, stale, Timestamp};
use crate::topic::lemma_expired_prefix_bounds;
use vstd::prelude::*;

verus! {

/// The names of the topics in `stores`, in their order.
pub open spec fn names_of(stores: Seq<TopicStoreView>) -> Seq<Seq<char>> {
    Seq::new(stores.len(), |i: int| stores[i].topic.name)
}

/// The names of the subscriptions in `stores`, in their order.
pub open spec fn subscription_names_of(stores: Seq<SubscriptionStoreView>) -> Seq<Seq<char>> {
    Seq::new(stores.len(), |i: int| stores[i].subscription.name)
}

/// Topics picked out of topics with distinct names have distinct names.
pub proof fn lemma_filter_topics_distinct(stores: Seq<TopicStoreView>, keep: spec_fn(TopicStoreView) -> bool)
    requires
        names_of(stores).no_duplicates(),
    ensures
        names_of(stores.filter(keep)).no_duplicates(),
    decreases stores.len(),
{
    broadcast use vstd::seq_lib::group_filter_ensures;

    reveal(Seq::filter);
    if stores.len() > 0 {
        let front = stores.drop_last();
        assert forall|i: int, j: int| 0 <= i < front.len() && 0 <= j < front.len() && i != j implies names_of(
            front,
        )[i] != names_of(front)[j] by {
            assert(names_of(front)[i] == names_of(stores)[i]);
            assert(names_of(front)[j] == names_of(stores)[j]);
        }
        lemma_filter_topics_distinct(front, keep);
        let kept = front.filter(keep);
        if keep(stores.last()) {
            let all = stores.filter(keep);
            assert(all == kept.push(stores.last()));
            assert forall|i: int, j: int| 0 <= i < all.len() && 0 <= j < all.len() && i != j implies names_of(
                all,
            )[i] != names_of(all)[j] by {
                if i < kept.len() && j < kept.len() {
                    assert(names_of(kept)[i] != names_of(kept)[j]);
                } else {
                    let inner = if i < kept.len() {
                        i
                    } else {
                        j
                    };
                    front.lemma_filter_contains_rev(keep, kept[inner]);
                    let from = choose|k: int| 0 <= k < front.len() && front[k] == kept[inner];
                    assert(names_of(stores)[from] != names_of(stores)[stores.len() - 1]);
                }
            }
        }
    }
}

/// Subscriptions picked out of subscriptions with distinct names have
/// distinct names.
pub proof fn lemma_filter_subscriptions_distinct(
    stores: Seq<SubscriptionStoreView>,
    keep: spec_fn(SubscriptionStoreView) -> bool,
)
    requires
        subscription_names_of(stores).no_duplicates(),
    ensures
        subscription_names_of(stores.filter(keep)).no_duplicates(),
    decreases stores.len(),
{
    reveal(Seq::filter);
    if stores.len() > 0 {
        let front = stores.drop_last();
        assert forall|i: int, j: int|
            0 <= i < front.len() && 0 <= j < front.len() && i != j implies subscription_names_of(front)[i]
            != subscription_names_of(front)[j] by {
            assert(subscription_names_of(front)[i] == subscription_names_of(stores)[i]);
            assert(subscription_names_of(front)[j] == subscription_names_of(stores)[j]);
        }
        lemma_filter_subscriptions_distinct(front, keep);
        let kept = front.filter(keep);
        if keep(stores.last()) {
            let all = stores.filter(keep);
            assert(all == kept.push(stores.last()));
            assert forall|i: int, j: int|
                0 <= i < all.len() && 0 <= j < all.len() && i != j implies subscription_names_of(all)[i]
                != subscription_names_of(all)[j] by {
                if i < kept.len() && j < kept.len() {
                    assert(subscription_names_of(kept)[i] != subscription_names_of(kept)[j]);
                } else {
                    let inner = if i < kept.len() {
                        i
                    } else {
                        j
                    };
                    front.lemma_filter_contains_rev(keep, kept[inner]);
                    let from = choose|k: int| 0 <= k < front.len() && front[k] == kept[inner];
                    assert(subscription_names_of(stores)[from] != subscription_names_of(stores)[stores.len()
                        - 1]);
                }
            }
        }
    }
}

/// What a cleanup makes of the registry: it stays in order; the topics it
/// holds afterwards are the topics that had not idled past their time to
/// live, each without its expired messages; and the subscriptions it holds
/// afterwards are those that had not idled past their time to live, each as
/// it was, but orphaned if its topic has gone.
pub proof fn lemma_cleanup(before: RegistryView, now: Timestamp, rss: i64)
    requires
        before.wf(),
    ensures
        before.cleanup(now, rss).wf(),
        before.cleanup(now, rss).topics.len() == before.kept_topics(now).len(),
        before.cleanup(now, rss).topics.len() <= before.topics.len(),
        before.cleanup(now, rss).subscriptions.len() == before.kept_subscriptions(now).len(),
        before.cleanup(now, rss).subscriptions.len() <= before.subscriptions.len(),
        forall|name: Seq<char>|
            before.cleanup(now, rss).has_topic(name) == before.keeps_topic(name, now),
        forall|name: Seq<char>| #[trigger]
            before.cleanup(now, rss).has_topic(name) ==> before.cleanup(now, rss).topic(name)
                == before.topic(name).cleanup(now),
        forall|name: Seq<char>|
            before.cleanup(now, rss).has_subscription(name) == (before.has_subscription(name)
                && !before.subscription(name).stale(now)),
        forall|name: Seq<char>| #[trigger]
            before.cleanup(now, rss).has_subscription(name) ==> before.cleanup(now, rss).subscription(name)
                == before.after_cleanup(before.subscription(name), now),
{
    broadcast use vstd::seq_lib::group_filter_ensures;

    let after = before.cleanup(now, rss);
    let keep_topic = |store: TopicStoreView| !store.stale(now);
    let keep_subscription = |store: SubscriptionStoreView| before.keeps_subscription(store, now);
    let kept = before.topics.filter(keep_topic);
    let stayed = before.subscriptions.filter(keep_subscription);
    assert(kept == before.kept_topics(now));
    assert(stayed == before.kept_subscriptions(now));
    assert(names_of(before.topics) =~= before.topic_names());
    assert(subscription_names_of(before.subscriptions) =~= before.subscription_names());
    lemma_filter_topics_distinct(before.topics, keep_topic);
    lemma_filter_subscriptions_distinct(before.subscriptions, keep_subscription);
    assert(after.topic_names() =~= names_of(kept));
    assert(after.subscription_names() =~= subscription_names_of(stayed));

    // Every topic afterwards is a kept topic of before, cleaned up.
    assert forall|k: int| 0 <= k < after.topics.len() implies {
        &&& before.topics.contains(kept[k])
        &&& !kept[k].stale(now)
        &&& (#[trigger] after.topics[k]) == kept[k].cleanup(now)
        &&& after.topics[k].wf()
        &&& before.topic_index(kept[k].topic.name) is Some
        &&& before.topic(kept[k].topic.name) == kept[k]
    } by {
        before.topics.lemma_filter_contains_rev(keep_topic, kept[k]);
        let from = choose|i: int| 0 <= i < before.topics.len() && before.topics[i] == kept[k];
        assert(before.topics[from].wf());
        lemma_expired_prefix_bounds(kept[k].topic.log.items, kept[k].topic.message_ttl, now);
        lemma_truncate_extends(kept[k].topic.log, kept[k].topic.expired_count(now));
        assert(before.topic_names()[from] == kept[k].topic.name);
        names::lemma_position_is(before.topic_names(), kept[k].topic.name, from);
    }

    assert forall|name: Seq<char>| after.has_topic(name) == before.keeps_topic(name, now) by {
        names::lemma_position(after.topic_names(), name);
        names::lemma_position(before.topic_names(), name);
        if let Some(k) = after.topic_index(name) {
            assert(after.topics[k] == kept[k].cleanup(now));
        }
        if before.keeps_topic(name, now) {
            let t = before.topic_index(name)->0;
            assert(keep_topic(before.topics[t]));
            assert(kept.contains(before.topics[t]));
            let k = choose|k: int| 0 <= k < kept.len() && kept[k] == before.topics[t];
            assert(after.topic_names()[k] == name);
        }
    }
    assert forall|name: Seq<char>| #[trigger] after.has_topic(name) implies after.topic(name) == before.topic(
        name,
    ).cleanup(now) by {
        names::lemma_position(after.topic_names(), name);
        let k = after.topic_index(name)->0;
        assert(after.topics[k] == kept[k].cleanup(now));
    }

    // Every subscription afterwards is a kept subscription of before.
    assert forall|s: int| 0 <= s < after.subscriptions.len() implies {
        &&& before.subscriptions.contains(stayed[s])
        &&& !stayed[s].stale(now)
        &&& (#[trigger] after.subscriptions[s]) == before.after_cleanup(stayed[s], now)
        &&& after.in_order(after.subscriptions[s].subscription)
        &&& before.subscription_index(stayed[s].subscription.name) is Some
        &&& before.subscription(stayed[s].subscription.name) == stayed[s]
    } by {
        let store = stayed[s];
        let sub = store.subscription;
        before.subscriptions.lemma_filter_contains_rev(keep_subscription, store);
        assert(keep_subscription(store));
        let from = choose|i: int| 0 <= i < before.subscriptions.len() && before.subscriptions[i] == store;
        assert(before.in_order(before.subscriptions[from].subscription));
        assert(before.subscription_names()[from] == sub.name);
        names::lemma_position_is(before.subscription_names(), sub.name, from);
        if !after.subscriptions[s].subscription.orphaned {
            let t = before.topic_index(sub.topic)->0;
            names::lemma_position(before.topic_names(), sub.topic);
            assert(keep_topic(before.topics[t]));
            assert(kept.contains(before.topics[t]));
            let k = choose|k: int| 0 <= k < kept.len() && kept[k] == before.topics[t];
            assert(after.topics[k] == kept[k].cleanup(now));
            assert(after.topic_names()[k] == sub.topic);
            names::lemma_position_is(after.topic_names(), sub.topic, k);
            lemma_expired_prefix_bounds(kept[k].topic.log.items, kept[k].topic.message_ttl, now);
            lemma_truncate_extends(kept[k].topic.log, kept[k].topic.expired_count(now));
            lemma_wf_extends(sub, kept[k].topic.log, after.topics[k].topic.log);
        }
    }

    assert forall|name: Seq<char>|
        after.has_subscription(name) == (before.has_subscription(name) && !before.subscription(name).stale(
            now,
        )) by {
        names::lemma_position(after.subscription_names(), name);
        names::lemma_position(before.subscription_names(), name);
        if let Some(s) = after.subscription_index(name) {
            assert(after.subscriptions[s] == before.after_cleanup(stayed[s], now));
        }
        if before.has_subscription(name) && !before.subscription(name).stale(now) {
            let s = before.subscription_index(name)->0;
            assert(keep_subscription(before.subscriptions[s]));
            assert(stayed.contains(before.subscriptions[s]));
            let k = choose|k: int| 0 <= k < stayed.len() && stayed[k] == before.subscriptions[s];
            assert(after.subscription_names()[k] == name);
        }
    }
    assert forall|name: Seq<char>| #[trigger] after.has_subscription(name) implies after.subscription(name)
        == before.after_cleanup(before.subscription(name), now) by {
        names::lemma_position(after.subscription_names(), name);
        let s = after.subscription_index(name)->0;
        assert(after.subscriptions[s] == before.after_cleanup(stayed[s], now));
    }
}

impl Registry {
    /// Cleanup the registry at the current time; see [`Registry::cleanup_at`].
    pub fn cleanup(&mut self, rss: i64) -> (r: (usize, usize, usize))
        requires
            old(self).wf(),
        ensures
            final(self).wf(),
            exists|now: Timestamp|
                {
                    &&& final(self)@ == #[trigger] old(self)@.cleanup(now, rss)
                    &&& r.0 == old(self)@.topics.len() - old(self)@.kept_topics(now).len()
                    &&& r.1 == old(self)@.subscriptions.len() - old(self)@.kept_subscriptions(now).len()
                    &&& r.2 == capped(expired_total(old(self)@.kept_topics(now), now))
                },
            final(self)@.topics.len() + r.0 == old(self)@.topics.len(),
            final(self)@.subscriptions.len() + r.1 == old(self)@.subscriptions.len(),
    {
        self.cleanup_at(now(), rss)
    }

    /// Cleanup the registry at `now`, removing the subscriptions and topics
    /// that have idled past their time to live, and from the topics that stay
    /// the messages that have outlived their time to live. A subscription
    /// that stays while its topic goes is orphaned: it hands out nothing from
    /// then on. `rss` is recorded as the memory the process takes up.
    ///
    /// Returns how many topics, subscriptions and messages were removed.
    pub fn cleanup_at(&mut self, now: Timestamp, rss: i64) -> (r: (usize, usize, usize))
        requires
            old(self).wf(),
        ensures
            final(self).wf(),
            final(self)@ == old(self)@.cleanup(now, rss),
            r.0 == old(self)@.topics.len() - old(self)@.kept_topics(now).len(),
            r.1 == old(self)@.subscriptions.len() - old(self)@.kept_subscriptions(now).len(),
            r.2 == capped(expired_total(old(self)@.kept_topics(now), now)),
            final(self)@.topics.len() + r.0 == old(self)@.topics.len(),
            final(self)@.subscriptions.len() + r.1 == old(self)@.subscriptions.len(),
    {
        let ghost before = old(self)@;
        let ghost keep_topic = |store: TopicStoreView| !store.stale(now);
        let ghost keep_subscription = |store: SubscriptionStoreView| before.keeps_subscription(store, now);
        let ghost settle = |store: SubscriptionStoreView| before.after_cleanup(store, now);
        proof {
            lemma_cleanup(before, now, rss);
        }

        // Subscriptions first: whether one is orphaned depends on its topic as it is now.
        let mut subscriptions: Vec<SubscriptionStore> = Vec::new();
        std::mem::swap(&mut self.subscriptions, &mut subscriptions);
        let subscriptions_before = subscriptions.len();
        assert(self.subscriptions@ =~= Seq::empty());
        assert(self@.topics =~= before.topics);
        proof {
            reveal(Seq::filter);
            assert(before.subscriptions.take(0) =~= Seq::empty());
            assert(self@.subscriptions =~= before.subscriptions.take(0).filter(keep_subscription).map_values(
                settle,
            ));
        }
        for store in it: subscriptions
            invariant
                before == old(self)@,
                before.wf(),
                keep_subscription == |store: SubscriptionStoreView| before.keeps_subscription(store, now),
                settle == |store: SubscriptionStoreView| before.after_cleanup(store, now),
                self.topics == old(self).topics,
                self@.topics == before.topics,
                self.topics_all_time == old(self).topics_all_time,
                self.subscriptions_all_time == old(self).subscriptions_all_time,
                self.start_time == old(self).start_time,
                it.seq().len() == before.subscriptions.len(),
                forall|i: int| 0 <= i < it.seq().len() ==> (#[trigger] it.seq()[i])@ == before.subscriptions[i],
                self@.subscriptions == before.subscriptions.take(it.index() as int).filter(
                    keep_subscription,
                ).map_values(settle),
        {
            let ghost done = it.index() as int;
            let ghost stayed = before.subscriptions.take(done).filter(keep_subscription);
            let ghost settled = self@.subscriptions;
            assert(store@ == before.subscriptions[done]);
            assert(before.in_order(store@.subscription));
            proof {
                names::lemma_position(before.topic_names(), store@.subscription.topic);
                assert(before.subscriptions.take(done + 1) =~= before.subscriptions.take(done).push(store@));
                before.subscriptions.take(done).lemma_filter_push(store@, keep_subscription);
            }
            if !stale(&store.subscription.ttl, &store.subscription.updated, &now) {
                let mut store = store;
                let ghost as_was = store@;
                let topic_stays = match self.find_topic(store.subscription.topic.as_str()) {
                    Some(t) => !stale(&self.topics[t].topic.ttl, &self.topics[t].topic.updated, &now),
                    None => false,
                };
                assert(topic_stays == before.keeps_topic(as_was.subscription.topic, now));
                if !store.subscription.is_orphaned() && !topic_stays {
                    store.subscription.orphan();
                }
                assert(store@ == before.after_cleanup(as_was, now));
                self.subscriptions.push(store);
                proof {
                    let more = stayed.push(as_was);
                    assert(settled == stayed.map_values(settle));
                    assert(self@.subscriptions =~= settled.push(settle(as_was)));
                    assert(more.map_values(settle) =~= stayed.map_values(settle).push(settle(as_was)));
                }
            } else {
                assert(self@.subscriptions =~= settled);
            }
        }
        assert(before.subscriptions.take(before.subscriptions.len() as int) =~= before.subscriptions);
        let subscriptions_removed = subscriptions_before - self.subscriptions.len();

        // Then the topics, and the messages of those that stay.
        let ghost reaped = self@.subscriptions;
        let mut topics: Vec<TopicStore> = Vec::new();
        std::mem::swap(&mut self.topics, &mut topics);
        let topics_before = topics.len();
        let mut messages_removed: usize = 0;
        assert(self.topics@ =~= Seq::empty());
        assert(self@.subscriptions =~= reaped);
        proof {
            reveal(Seq::filter);
            assert(before.topics.take(0) =~= Seq::empty());
            assert(self@.topics =~= before.topics.take(0).filter(keep_topic).map_values(
                |store: TopicStoreView| store.cleanup(now),
            ));
        }
        for store in it: topics
            invariant
                before == old(self)@,
                before.wf(),
                keep_topic == |store: TopicStoreView| !store.stale(now),
                self@.subscriptions == reaped,
                self.topics_all_time == old(self).topics_all_time,
                self.subscriptions_all_time == old(self).subscriptions_all_time,
                self.start_time == old(self).start_time,
                it.seq().len() == before.topics.len(),
                forall|i: int| 0 <= i < it.seq().len() ==> (#[trigger] it.seq()[i])@ == before.topics[i],
                self@.topics == before.topics.take(it.index() as int).filter(keep_topic).map_values(
                    |store: TopicStoreView| store.cleanup(now),
                ),
                messages_removed == capped(
                    expired_total(before.topics.take(it.index() as int).filter(keep_topic), now),
                ),
        {
            let ghost done = it.index() as int;
            let ghost kept = before.topics.take(done).filter(keep_topic);
            let ghost cleaned = self@.topics;
            assert(store@ == before.topics[done]);
            assert(before.topics[done].wf());
            proof {
                assert(before.topics.take(done + 1) =~= before.topics.take(done).push(store@));
                before.topics.take(done).lemma_filter_push(store@, keep_topic);
            }
            if !stale(&store.topic.ttl, &store.topic.updated, &now) {
                let mut store = store;
                let ghost as_was = store@;
                let count = store.topic.cleanup_at(now);
                store.expired_all_time = count_up(store.expired_all_time, count);
                messages_removed = messages_removed.saturating_add(count);
                assert(store@ == as_was.cleanup(now));
                self.topics.push(store);
                proof {
                    let more = kept.push(as_was);
                    let clean = |store: TopicStoreView| store.cleanup(now);
                    assert(more.drop_last() =~= kept);
                    assert(cleaned == kept.map_values(clean));
                    assert(self@.topics =~= cleaned.push(as_was.cleanup(now)));
                    assert(more.map_values(clean) =~= kept.map_values(clean).push(clean(as_was)));
                    assert(self@.topics =~= more.map_values(clean));
                }
            } else {
                assert(self@.topics =~= cleaned);
            }
        }
        assert(before.topics.take(before.topics.len() as int) =~= before.topics);
        let topics_removed = topics_before - self.topics.len();
        self.memory_resident_set_size = rss;
        proof {
            assert(before.kept_topics(now) == before.topics.filter(keep_topic));
            assert(before.kept_subscriptions(now) == before.subscriptions.filter(keep_subscription));
            assert(self@.topics == before.cleanup(now, rss).topics);
            assert(self@.subscriptions == before.cleanup(now, rss).subscriptions);
        }
        (topics_removed, subscriptions_removed, messages_removed)
    }
}

} // verus!
