//! Why the operations of the registry keep it in order.

use crate::names;
use crate::registry::model::{RegistryView, SubscriptionStoreView, TopicStoreView};
use crate::subscription::SubscriptionView;
use crate::time::{Duration, Timestamp};
use crate::topic::TopicView;
use vstd::prelude::*;

verus! {

/// Replacing what is kept for a topic by something under the same name leaves
/// the names of the topics as they are.
pub proof fn lemma_same_topic_names(before: RegistryView, after: RegistryView, t: int, store: TopicStoreView)
    requires
        0 <= t < before.topics.len(),
        store.topic.name == before.topics[t].topic.name,
        after.topics == before.topics.update(t, store),
    ensures
        after.topic_names() == before.topic_names(),
{
    assert(after.topic_names() =~= before.topic_names());
}

/// A subscription that is in order stays in order when what is kept for one
/// topic is replaced by something that has the same name, links what was
/// linked (or all of it but names other than the subscription's), and has a
/// log the subscription still reads.
pub proof fn lemma_stays_in_order(
    before: RegistryView,
    after: RegistryView,
    t: int,
    store: TopicStoreView,
    sub: SubscriptionView,
)
    requires
        before.topic_names().no_duplicates(),
        0 <= t < before.topics.len(),
        store.topic.name == before.topics[t].topic.name,
        after.topics == before.topics.update(t, store),
        before.in_order(sub),
        before.topics[t].subscriptions.contains(sub.name) ==> store.subscriptions.contains(sub.name),
        sub.wf(before.topics[t].topic.log) ==> sub.wf(store.topic.log),
    ensures
        after.in_order(sub),
{
    lemma_same_topic_names(before, after, t, store);
    names::lemma_position(before.topic_names(), sub.topic);
}

/// Replacing what is kept for a subscription by something under the same
/// name that is in order keeps the registry in order.
pub proof fn lemma_with_subscription_wf(
    before: RegistryView,
    after: RegistryView,
    s: int,
    store: SubscriptionStoreView,
)
    requires
        before.wf(),
        0 <= s < before.subscriptions.len(),
        store.subscription.name == before.subscriptions[s].subscription.name,
        before.in_order(store.subscription),
        after == (RegistryView { subscriptions: before.subscriptions.update(s, store), ..before }),
    ensures
        after.wf(),
        after.subscription_names() == before.subscription_names(),
        after.topic_names() == before.topic_names(),
{
    assert(after.subscription_names() =~= before.subscription_names());
    assert(after.topic_names() =~= before.topic_names());
    assert forall|k: int| 0 <= k < after.subscriptions.len() implies after.in_order(
        (#[trigger] after.subscriptions[k]).subscription,
    ) by {
        if k != s {
            assert(before.in_order(before.subscriptions[k].subscription));
        }
    }
}

/// Deleting a subscription keeps names unique.
pub proof fn lemma_delete_subscription_distinct(before: RegistryView, name: Seq<char>)
    requires
        before.distinct(),
    ensures
        before.delete_subscription(name).distinct(),
{
    let after = before.delete_subscription(name);
    names::lemma_position(before.subscription_names(), name);
    if let Some(s) = before.subscription_index(name) {
        let without = RegistryView { subscriptions: before.subscriptions.remove(s), ..before };
        names::lemma_position_after_remove(before.subscription_names(), s, name);
        assert(without.subscription_names() =~= before.subscription_names().remove(s));
        assert(after.subscription_names() =~= without.subscription_names());
        let topic = before.subscriptions[s].subscription.topic;
        names::lemma_position(without.topic_names(), topic);
        if let Some(t) = without.topic_index(topic) {
            names::lemma_without_name(without.topics[t].subscriptions, name);
            lemma_same_topic_names(without, after, t, after.topics[t]);
        }
    }
}

/// Deleting a subscription takes it out of the subscriptions and leaves the
/// others: what is left is what was there under another name.
pub proof fn lemma_delete_subscription_left(before: RegistryView, name: Seq<char>)
    requires
        before.distinct(),
    ensures
        !before.delete_subscription(name).has_subscription(name),
        forall|s: int|
            0 <= s < before.delete_subscription(name).subscriptions.len() ==> {
                let left = #[trigger] before.delete_subscription(name).subscriptions[s];
                left.subscription.name != name && before.subscriptions.contains(left)
            },
        forall|s: int|
            0 <= s < before.subscriptions.len() && (#[trigger] before.subscriptions[s]).subscription.name
                != name ==> before.delete_subscription(name).subscriptions.contains(
                before.subscriptions[s],
            ),
{
    let after = before.delete_subscription(name);
    names::lemma_position(before.subscription_names(), name);
    names::lemma_position(after.subscription_names(), name);
    match before.subscription_index(name) {
        Some(gone) => {
            assert(after.subscriptions =~= before.subscriptions.remove(gone));
            assert forall|s: int| 0 <= s < after.subscriptions.len() implies {
                let left = #[trigger] after.subscriptions[s];
                left.subscription.name != name && before.subscriptions.contains(left)
            } by {
                let from = if s < gone {
                    s
                } else {
                    s + 1
                };
                assert(after.subscriptions[s] == before.subscriptions[from]);
                assert(before.subscription_names()[from] != before.subscription_names()[gone]);
            }
            assert forall|s: int|
                0 <= s < before.subscriptions.len() && (#[trigger] before.subscriptions[s]).subscription.name
                    != name implies after.subscriptions.contains(before.subscriptions[s]) by {
                let to = if s < gone {
                    s
                } else {
                    s - 1
                };
                assert(after.subscriptions[to] == before.subscriptions[s]);
            }
            if let Some(k) = after.subscription_index(name) {
                assert(after.subscription_names()[k] == name);
            }
        },
        None => {
            assert forall|s: int| 0 <= s < after.subscriptions.len() implies {
                let left = #[trigger] after.subscriptions[s];
                left.subscription.name != name && before.subscriptions.contains(left)
            } by {
                assert(before.subscription_names()[s] != name);
            }
        },
    }
}

/// A subscription that is in order, and is not the one deleted, stays in
/// order.
pub proof fn lemma_delete_subscription_keeps(before: RegistryView, name: Seq<char>, sub: SubscriptionView)
    requires
        before.distinct(),
        before.in_order(sub),
        sub.name != name,
    ensures
        before.delete_subscription(name).in_order(sub),
{
    let after = before.delete_subscription(name);
    names::lemma_position(before.subscription_names(), name);
    if let Some(s) = before.subscription_index(name) {
        let without = RegistryView { subscriptions: before.subscriptions.remove(s), ..before };
        let topic = before.subscriptions[s].subscription.topic;
        names::lemma_position(without.topic_names(), topic);
        assert(without.in_order(sub));
        if let Some(t) = without.topic_index(topic) {
            names::lemma_without_name(without.topics[t].subscriptions, name);
            lemma_stays_in_order(without, after, t, after.topics[t], sub);
        }
    }
}

/// Deleting a subscription keeps the registry in order.
pub proof fn lemma_delete_subscription_wf(before: RegistryView, name: Seq<char>)
    requires
        before.wf(),
    ensures
        before.delete_subscription(name).wf(),
{
    let after = before.delete_subscription(name);
    lemma_delete_subscription_distinct(before, name);
    lemma_delete_subscription_left(before, name);
    assert forall|s: int| 0 <= s < after.subscriptions.len() implies after.in_order(
        (#[trigger] after.subscriptions[s]).subscription,
    ) by {
        let left = after.subscriptions[s];
        let from = choose|i: int| 0 <= i < before.subscriptions.len() && before.subscriptions[i] == left;
        assert(before.in_order(before.subscriptions[from].subscription));
        lemma_delete_subscription_keeps(before, name, left.subscription);
    }
}

/// One step of deleting a topic's subscriptions: once the first of those that
/// are left is deleted, the rest is left.
pub proof fn lemma_deleting_step(before: RegistryView, dead: Seq<char>, left: Seq<Seq<char>>)
    requires
        before.deleting(dead, left),
        left.len() > 0,
    ensures
        before.delete_subscription(left[0]).deleting(dead, left.skip(1)),
{
    let name = left[0];
    let after = before.delete_subscription(name);
    lemma_delete_subscription_distinct(before, name);
    lemma_delete_subscription_left(before, name);
    names::lemma_position(before.subscription_names(), name);
    assert(after.topic_names() =~= before.topic_names()) by {
        if let Some(s) = before.subscription_index(name) {
            let without = RegistryView { subscriptions: before.subscriptions.remove(s), ..before };
            let topic = before.subscriptions[s].subscription.topic;
            names::lemma_position(without.topic_names(), topic);
            if let Some(t) = without.topic_index(topic) {
                lemma_same_topic_names(without, after, t, after.topics[t]);
            }
        }
    }
    assert forall|s: int| 0 <= s < after.subscriptions.len() implies {
        let sub = (#[trigger] after.subscriptions[s]).subscription;
        if !sub.orphaned && sub.topic == dead {
            left.skip(1).contains(sub.name)
        } else {
            after.in_order(sub)
        }
    } by {
        let kept = after.subscriptions[s];
        let sub = kept.subscription;
        let from = choose|i: int| 0 <= i < before.subscriptions.len() && before.subscriptions[i] == kept;
        assert(before.subscriptions[from].subscription == sub);
        if !sub.orphaned && sub.topic == dead {
            assert(left.contains(sub.name));
            let k = choose|k: int| 0 <= k < left.len() && left[k] == sub.name;
            assert(k > 0);
            assert(left.skip(1)[k - 1] == sub.name);
        } else {
            lemma_delete_subscription_keeps(before, name, sub);
        }
    }
}

/// Deleting the subscriptions `names` one after the other is deleting the
/// first and then the rest.
pub proof fn lemma_delete_subscriptions_first(before: RegistryView, names: Seq<Seq<char>>)
    requires
        names.len() > 0,
    ensures
        before.delete_subscriptions(names) == before.delete_subscription(names[0]).delete_subscriptions(
            names.skip(1),
        ),
    decreases names.len(),
{
    if names.len() == 1 {
        assert(names.drop_last() =~= Seq::<Seq<char>>::empty());
        assert(names.skip(1) =~= Seq::<Seq<char>>::empty());
        assert(before.delete_subscriptions(names.drop_last()) == before);
    } else {
        let front = names.drop_last();
        lemma_delete_subscriptions_first(before, front);
        assert(front.skip(1) =~= names.skip(1).drop_last());
        assert(names.skip(1).last() == names.last());
        assert(front[0] == names[0]);
    }
}

/// Deleting all the subscriptions that are left ends the deletion of a topic
/// with the registry in order and no subscription in it that read the
/// topic's log.
pub proof fn lemma_deleting_all(before: RegistryView, dead: Seq<char>, left: Seq<Seq<char>>)
    requires
        before.deleting(dead, left),
    ensures
        before.delete_subscriptions(left).wf(),
        !before.delete_subscriptions(left).has_topic(dead),
        before.delete_subscriptions(left).topic_names() == before.topic_names(),
        forall|s: int|
            0 <= s < before.delete_subscriptions(left).subscriptions.len() ==> {
                let sub = (#[trigger] before.delete_subscriptions(left).subscriptions[s]).subscription;
                sub.orphaned || sub.topic != dead
            },
    decreases left.len(),
{
    if left.len() == 0 {
        assert forall|s: int| 0 <= s < before.subscriptions.len() implies {
            let sub = (#[trigger] before.subscriptions[s]).subscription;
            (sub.orphaned || sub.topic != dead) && before.in_order(sub)
        } by {
            let sub = before.subscriptions[s].subscription;
            if !sub.orphaned && sub.topic == dead {
                assert(left.contains(sub.name));
            }
        }
    } else {
        lemma_deleting_step(before, dead, left);
        lemma_delete_subscriptions_first(before, left);
        let next = before.delete_subscription(left[0]);
        lemma_deleting_all(next, dead, left.skip(1));
        lemma_delete_subscription_topic_names(before, left[0]);
    }
}

/// Deleting a subscription leaves the names of the topics as they are.
pub proof fn lemma_delete_subscription_topic_names(before: RegistryView, name: Seq<char>)
    ensures
        before.delete_subscription(name).topic_names() == before.topic_names(),
{
    let after = before.delete_subscription(name);
    names::lemma_position(before.subscription_names(), name);
    if let Some(s) = before.subscription_index(name) {
        let without = RegistryView { subscriptions: before.subscriptions.remove(s), ..before };
        let topic = before.subscriptions[s].subscription.topic;
        names::lemma_position(without.topic_names(), topic);
        if let Some(t) = without.topic_index(topic) {
            lemma_same_topic_names(without, after, t, after.topics[t]);
        }
    }
}

/// Taking a topic out of a registry that is in order starts its deletion:
/// the subscriptions that are left to delete are those linked to it.
pub proof fn lemma_deleting_starts(before: RegistryView, name: Seq<char>)
    requires
        before.wf(),
        before.has_topic(name),
    ensures
        ({
            let t = before.topic_index(name)->0;
            (RegistryView { topics: before.topics.remove(t), ..before }).deleting(
                name,
                before.topics[t].subscriptions,
            )
        }),
{
    let t = before.topic_index(name)->0;
    let without = RegistryView { topics: before.topics.remove(t), ..before };
    names::lemma_position(before.topic_names(), name);
    names::lemma_position_after_remove(before.topic_names(), t, name);
    assert(without.topic_names() =~= before.topic_names().remove(t));
    assert(without.subscription_names() =~= before.subscription_names());
    assert forall|k: int| 0 <= k < without.topics.len() implies (#[trigger] without.topics[k]).wf() by {
        let from = if k < t {
            k
        } else {
            k + 1
        };
        assert(without.topics[k] == before.topics[from]);
    }
    assert forall|s: int| 0 <= s < without.subscriptions.len() implies {
        let sub = (#[trigger] without.subscriptions[s]).subscription;
        if !sub.orphaned && sub.topic == name {
            before.topics[t].subscriptions.contains(sub.name)
        } else {
            without.in_order(sub)
        }
    } by {
        let sub = without.subscriptions[s].subscription;
        assert(before.in_order(before.subscriptions[s].subscription));
        names::lemma_position(before.topic_names(), sub.topic);
        names::lemma_position_after_remove(before.topic_names(), t, sub.topic);
        let at = before.topic_index(sub.topic)->0;
        if !sub.orphaned && sub.topic != name {
            let to = if at < t {
                at
            } else {
                at - 1
            };
            assert(without.topics[to] == before.topics[at]);
        }
    }
}

/// Deleting a topic keeps the registry in order, and leaves neither the
/// topic nor any subscription that read its log. What is left under the
/// topic's name, if anything, is orphaned: it read the log of an earlier
/// topic of that name.
pub proof fn lemma_delete_topic(before: RegistryView, name: Seq<char>)
    requires
        before.wf(),
    ensures
        before.delete_topic(name).wf(),
        !before.delete_topic(name).has_topic(name),
        forall|s: int|
            0 <= s < before.delete_topic(name).subscriptions.len() ==> {
                let sub = (#[trigger] before.delete_topic(name).subscriptions[s]).subscription;
                sub.orphaned || sub.topic != name
            },
{
    if before.has_topic(name) {
        let t = before.topic_index(name)->0;
        let without = RegistryView { topics: before.topics.remove(t), ..before };
        lemma_deleting_starts(before, name);
        lemma_deleting_all(without, name, before.topics[t].subscriptions);
    } else {
        assert forall|s: int| 0 <= s < before.subscriptions.len() implies {
            let sub = (#[trigger] before.subscriptions[s]).subscription;
            sub.orphaned || sub.topic != name
        } by {
            assert(before.in_order(before.subscriptions[s].subscription));
        }
    }
}

/// Deleting subscriptions leaves every subscription that is not named among
/// them as it is.
pub proof fn lemma_delete_subscriptions_keeps(
    before: RegistryView,
    names: Seq<Seq<char>>,
    store: SubscriptionStoreView,
)
    requires
        before.distinct(),
        before.subscriptions.contains(store),
        !names.contains(store.subscription.name),
    ensures
        before.delete_subscriptions(names).distinct(),
        before.delete_subscriptions(names).subscriptions.contains(store),
    decreases names.len(),
{
    if names.len() > 0 {
        let front = names.drop_last();
        assert(!front.contains(store.subscription.name)) by {
            if front.contains(store.subscription.name) {
                let i = choose|i: int| 0 <= i < front.len() && front[i] == store.subscription.name;
                assert(names[i] == store.subscription.name);
            }
        }
        lemma_delete_subscriptions_keeps(before, front, store);
        let mid = before.delete_subscriptions(front);
        lemma_delete_subscription_distinct(mid, names.last());
        lemma_delete_subscription_left(mid, names.last());
        assert(names[names.len() - 1] == names.last());
        let s = choose|s: int| 0 <= s < mid.subscriptions.len() && mid.subscriptions[s] == store;
        assert(mid.subscriptions[s].subscription.name != names.last());
    }
}

/// Deleting a topic takes nothing but that topic out of the topics, and
/// leaves every subscription whose name is not linked to the topic as it is.
pub proof fn lemma_delete_topic_keeps(before: RegistryView, name: Seq<char>, store: SubscriptionStoreView)
    requires
        before.wf(),
        before.has_topic(name),
        before.subscriptions.contains(store),
        !before.topic(name).subscriptions.contains(store.subscription.name),
    ensures
        before.delete_topic(name).subscriptions.contains(store),
        before.delete_topic(name).topic_names() == before.topic_names().remove(before.topic_index(name)->0),
{
    let t = before.topic_index(name)->0;
    let without = RegistryView { topics: before.topics.remove(t), ..before };
    names::lemma_position(before.topic_names(), name);
    lemma_deleting_starts(before, name);
    lemma_deleting_all(without, name, before.topics[t].subscriptions);
    lemma_delete_subscriptions_keeps(without, before.topics[t].subscriptions, store);
    assert(without.topic_names() =~= before.topic_names().remove(t));
}

/// Creating a topic twice is creating it once: the second request finds the
/// topic, whatever settings it brings, and changes nothing.
pub proof fn lemma_create_topic_twice(
    before: RegistryView,
    name: Seq<char>,
    message_ttl: Duration,
    ttl: Duration,
    first: Timestamp,
    other_message_ttl: Duration,
    other_ttl: Duration,
    second: Timestamp,
)
    requires
        before.wf(),
    ensures
        before.create_topic(name, message_ttl, ttl, first).has_topic(name),
        before.create_topic(name, message_ttl, ttl, first).create_topic(
            name,
            other_message_ttl,
            other_ttl,
            second,
        ) == before.create_topic(name, message_ttl, ttl, first),
{
    let after = before.create_topic(name, message_ttl, ttl, first);
    names::lemma_position(before.topic_names(), name);
    if !before.has_topic(name) {
        assert(after.topic_names()[before.topics.len() as int] == name);
    }
}

/// An update that gives no setting still touches the topic: nothing but its
/// time of update changes, and that is the time of the update.
pub proof fn lemma_update_topic_touches(before: RegistryView, name: Seq<char>, now: Timestamp)
    requires
        before.wf(),
        before.has_topic(name),
    ensures
        before.update_topic(name, None, None, now).has_topic(name),
        before.update_topic(name, None, None, now).topic(name).topic == (TopicView {
            updated: now,
            ..before.topic(name).topic
        }),
{
    let after = before.update_topic(name, None, None, now);
    names::lemma_position(before.topic_names(), name);
    let t = before.topic_index(name)->0;
    lemma_same_topic_names(before, after, t, after.topics[t]);
}

} // verus!
