//! Topics: named logs of published messages.

use crate::commit_log::{lemma_cleanup_leaves_none, CommitLog, LogView};
use crate::message::{fresh_id, Envelope};
use crate::time::{elapsed_exceeds, has_elapsed, now, Duration, Timestamp};
use vstd::prelude::*;
use vstd::std_specs::convert::FromSpecImpl;

verus! {

/// What a [`Topic`] is: its settings, its timestamps and its log.
pub struct TopicView {
    pub name: Seq<char>,
    pub message_ttl: Duration,
    pub ttl: Duration,
    pub created: Timestamp,
    pub updated: Timestamp,
    pub log: LogView<Envelope>,
}

/// Whether a message published at `published` with a time to live of `ttl` has
/// outlived it at `now`.
pub open spec fn message_expired(published: Timestamp, ttl: Duration, now: Timestamp) -> bool {
    elapsed_exceeds(now, published, ttl)
}

/// The number of messages at the front of `items` that have all expired: the
/// position of the first one that has not, or the length of `items`.
pub open spec fn expired_prefix(items: Seq<Envelope>, ttl: Duration, now: Timestamp) -> nat
    decreases items.len(),
{
    if items.len() > 0 && message_expired(items[0].time, ttl, now) {
        1 + expired_prefix(items.skip(1), ttl, now)
    } else {
        0
    }
}

/// [`expired_prefix`] is the only count that has nothing but expired messages
/// before it and no expired message at it.
pub proof fn lemma_expired_prefix_is(items: Seq<Envelope>, ttl: Duration, now: Timestamp, count: nat)
    requires
        count <= items.len(),
        forall|i: int| 0 <= i < count ==> message_expired(#[trigger] items[i].time, ttl, now),
        count < items.len() ==> !message_expired(items[count as int].time, ttl, now),
    ensures
        expired_prefix(items, ttl, now) == count,
    decreases count,
{
    if count > 0 {
        let rest = items.skip(1);
        assert forall|i: int| 0 <= i < count - 1 implies message_expired(
            #[trigger] rest[i].time,
            ttl,
            now,
        ) by {
            assert(rest[i] == items[i + 1]);
        }
        lemma_expired_prefix_is(rest, ttl, now, (count - 1) as nat);
    }
}

/// What [`expired_prefix`] counts has expired, and what follows it has not.
pub proof fn lemma_expired_prefix_bounds(items: Seq<Envelope>, ttl: Duration, now: Timestamp)
    ensures
        expired_prefix(items, ttl, now) <= items.len(),
        forall|i: int|
            0 <= i < expired_prefix(items, ttl, now) ==> message_expired(
                #[trigger] items[i].time,
                ttl,
                now,
            ),
        expired_prefix(items, ttl, now) < items.len() ==> !message_expired(
            items[expired_prefix(items, ttl, now) as int].time,
            ttl,
            now,
        ),
    decreases items.len(),
{
    if items.len() > 0 && message_expired(items[0].time, ttl, now) {
        let rest = items.skip(1);
        lemma_expired_prefix_bounds(rest, ttl, now);
        let k = expired_prefix(rest, ttl, now);
        assert forall|i: int| 0 <= i < k + 1 implies message_expired(
            #[trigger] items[i].time,
            ttl,
            now,
        ) by {
            if i > 0 {
                assert(rest[i - 1] == items[i]);
            }
        }
        if k + 1 < items.len() {
            assert(rest[k as int] == items[k as int + 1]);
        }
    }
}

/// Where the messages of a topic were published in the order of their
/// timestamps, a cleanup leaves no message that has outlived the message time
/// to live.
pub proof fn lemma_cleanup_leaves_unexpired(topic: TopicView, now: Timestamp)
    requires
        topic.message_ttl.millis != 0,
        forall|i: int, j: int|
            0 <= i <= j < topic.log.items.len() ==> topic.log.items[i].time.as_nanos()
                <= topic.log.items[j].time.as_nanos(),
    ensures
        forall|k: int|
            0 <= k < topic.cleanup(now).log.items.len() ==> !message_expired(
                (#[trigger] topic.cleanup(now).log.items[k]).time,
                topic.message_ttl,
                now,
            ),
{
    let items = topic.log.items;
    let expired = |e: Envelope| message_expired(e.time, topic.message_ttl, now);
    lemma_expired_prefix_bounds(items, topic.message_ttl, now);
    lemma_cleanup_leaves_none(items, expired, topic.expired_count(now));
    assert forall|k: int| 0 <= k < topic.cleanup(now).log.items.len() implies !message_expired(
        (#[trigger] topic.cleanup(now).log.items[k]).time,
        topic.message_ttl,
        now,
    ) by {
        assert(!expired(items.skip(topic.expired_count(now) as int)[k]));
    }
}

impl TopicView {
    /// A topic that has just been created.
    pub open spec fn fresh(name: Seq<char>, message_ttl: Duration, ttl: Duration, now: Timestamp) -> Self {
        TopicView {
            name,
            message_ttl,
            ttl,
            created: now,
            updated: now,
            log: LogView { dropped: 0, items: Seq::empty() },
        }
    }

    /// The topic after `data` is published at `now` under `id`.
    pub open spec fn publish(self, id: u128, now: Timestamp, data: String) -> Self {
        TopicView { updated: now, log: self.log.append(Envelope { id, time: now, data }), ..self }
    }

    /// The topic after the payloads `data` are published one after the
    /// other, the payload `data[k]` at the time `times[k]` under the
    /// identifier `ids[k]`. Publishing nothing does not touch the topic.
    pub open spec fn publish_all(self, ids: Seq<u128>, times: Seq<Timestamp>, data: Seq<String>) -> Self
        recommends
            ids.len() == data.len(),
            times.len() == data.len(),
    {
        if data.len() == 0 {
            self
        } else {
            TopicView {
                updated: times[data.len() - 1],
                log: LogView {
                    dropped: self.log.dropped,
                    items: self.log.items + Seq::new(
                        data.len(),
                        |k: int| Envelope { id: ids[k], time: times[k], data: data[k] },
                    ),
                },
                ..self
            }
        }
    }

    /// The number of messages a cleanup at `now` removes. A zero message time
    /// to live keeps every message.
    pub open spec fn expired_count(self, now: Timestamp) -> nat {
        if self.message_ttl.millis == 0 {
            0
        } else {
            expired_prefix(self.log.items, self.message_ttl, now)
        }
    }

    /// The topic after a cleanup at `now`.
    pub open spec fn cleanup(self, now: Timestamp) -> Self {
        TopicView { log: self.log.truncate(self.expired_count(now)), ..self }
    }

    /// The topic after it is touched at `now`.
    pub open spec fn touch(self, now: Timestamp) -> Self {
        TopicView { updated: now, ..self }
    }

    /// The topic after an update at `now` that sets the settings that are given.
    pub open spec fn update(self, message_ttl: Option<Duration>, ttl: Option<Duration>, now: Timestamp) -> Self {
        TopicView {
            message_ttl: match message_ttl {
                Some(v) => v,
                None => self.message_ttl,
            },
            ttl: match ttl {
                Some(v) => v,
                None => self.ttl,
            },
            updated: now,
            ..self
        }
    }
}

/// A topic which messages can be published to and subscriptions can subscribe
/// to.
#[derive(Debug)]
pub struct Topic {
    /// Unique name of the topic.
    pub name: String,
    /// Message time to live.
    pub message_ttl: Duration,
    /// Time to live of the topic.
    pub ttl: Duration,
    /// Time the topic was created.
    pub created: Timestamp,
    /// Time the topic was updated.
    pub updated: Timestamp,
    pub(crate) log: CommitLog<Envelope>,
}

impl View for Topic {
    type V = TopicView;

    open(crate) spec fn view(&self) -> TopicView {
        TopicView {
            name: self.name@,
            message_ttl: self.message_ttl,
            ttl: self.ttl,
            created: self.created,
            updated: self.updated,
            log: self.log@,
        }
    }
}

impl Topic {
    /// The sequence numbers of the topic's log fit the machine word.
    pub open spec fn wf(&self) -> bool {
        self@.log.end() <= usize::MAX
    }

    /// Create a new topic, stamped with the current time.
    pub fn new(name: &str, message_ttl: Duration, ttl: Duration) -> (topic: Topic)
        ensures
            topic.wf(),
            topic@ == TopicView::fresh(name@, message_ttl, ttl, topic@.created),
    {
        Topic::new_at(name, message_ttl, ttl, now())
    }

    /// Create a new topic, stamped with `now`.
    pub fn new_at(name: &str, message_ttl: Duration, ttl: Duration, now: Timestamp) -> (topic: Topic)
        ensures
            topic.wf(),
            topic@ == TopicView::fresh(name@, message_ttl, ttl, now),
    {
        Topic {
            name: name.to_owned(),
            message_ttl,
            ttl,
            created: now,
            updated: now,
            log: CommitLog::new(),
        }
    }

    /// Returns `true` if there are no messages.
    pub fn empty(&self) -> (r: bool)
        ensures
            r == (self@.log.items.len() == 0),
    {
        self.log.empty()
    }

    /// Get the number of messages.
    pub fn len(&self) -> (n: usize)
        ensures
            n == self@.log.items.len(),
    {
        self.log.len()
    }

    /// Whether one more message can be published without running out of
    /// sequence numbers.
    pub fn has_room(&self) -> (r: bool)
        requires
            self.wf(),
        ensures
            r == (self@.log.end() < usize::MAX),
    {
        self.log.has_room()
    }

    /// Publish the provided data under a fresh identifier, stamped with the
    /// current time, and return the identifier.
    pub fn publish(&mut self, data: String) -> (id: u128)
        requires
            old(self).wf(),
            old(self)@.log.end() < usize::MAX,
        ensures
            final(self).wf(),
            final(self)@ == old(self)@.publish(id, final(self)@.updated, data),
    {
        let id = fresh_id();
        self.publish_with(id, now(), data);
        id
    }

    /// Publish the provided data under `id`, stamped with `now`.
    pub fn publish_with(&mut self, id: u128, now: Timestamp, data: String)
        requires
            old(self).wf(),
            old(self)@.log.end() < usize::MAX,
        ensures
            final(self).wf(),
            final(self)@ == old(self)@.publish(id, now, data),
    {
        self.update_at(now);
        self.log.append(Envelope::new(id, now, data));
    }

    /// Cleanup the messages that have expired by the current time.
    ///
    /// Returns the number of messages cleaned up.
    pub fn cleanup(&mut self) -> (count: usize)
        requires
            old(self).wf(),
        ensures
            final(self).wf(),
            exists|now: Timestamp|
                count == old(self)@.expired_count(now) && final(self)@ == #[trigger] old(self)@.cleanup(now),
            old(self)@.message_ttl.millis == 0 ==> count == 0 && final(self)@ == old(self)@,
            count <= old(self)@.log.items.len(),
    {
        self.cleanup_at(now())
    }

    /// Cleanup the messages that have expired at `now`: the oldest messages,
    /// up to the first one whose age does not exceed the message time to live.
    /// With a message time to live of zero nothing expires.
    ///
    /// Returns the number of messages cleaned up.
    pub fn cleanup_at(&mut self, now: Timestamp) -> (count: usize)
        requires
            old(self).wf(),
        ensures
            final(self).wf(),
            count == old(self)@.expired_count(now),
            final(self)@ == old(self)@.cleanup(now),
            old(self)@.message_ttl.millis == 0 ==> count == 0 && final(self)@ == old(self)@,
            count <= old(self)@.log.items.len(),
    {
        let ttl = self.message_ttl;
        if !ttl.is_zero() {
            let expired = |m: &Envelope| -> (b: bool)
                ensures
                    b == message_expired(m.time, ttl, now),
                { has_elapsed(&now, &m.time, &ttl) };
            let count = self.log.cleanup(expired);
            proof {
                lemma_expired_prefix_is(old(self)@.log.items, ttl, now, count as nat);
            }
            count
        } else {
            assert(self@.log.items.skip(0) =~= self@.log.items);
            0
        }
    }

    /// Set the message time to live, touching the topic at the current time.
    pub fn set_message_ttl(&mut self, message_ttl: Duration)
        ensures
            final(self)@ == old(self)@.update(Some(message_ttl), None, final(self)@.updated),
    {
        self.set_message_ttl_at(message_ttl, now());
    }

    /// Set the message time to live, touching the topic at `now`.
    pub fn set_message_ttl_at(&mut self, message_ttl: Duration, now: Timestamp)
        ensures
            final(self)@ == old(self)@.update(Some(message_ttl), None, now),
    {
        self.update_at(now);
        self.message_ttl = message_ttl;
    }

    /// Set the topic time to live, touching the topic at the current time.
    pub fn set_ttl(&mut self, ttl: Duration)
        ensures
            final(self)@ == old(self)@.update(None, Some(ttl), final(self)@.updated),
    {
        self.set_ttl_at(ttl, now());
    }

    /// Set the topic time to live, touching the topic at `now`.
    pub fn set_ttl_at(&mut self, ttl: Duration, now: Timestamp)
        ensures
            final(self)@ == old(self)@.update(None, Some(ttl), now),
    {
        self.update_at(now);
        self.ttl = ttl;
    }

    /// Update the updated time to the current time.
    pub fn update(&mut self)
        ensures
            final(self)@ == old(self)@.touch(final(self)@.updated),
    {
        self.update_at(now());
    }

    /// Update the updated time to `now`.
    pub fn update_at(&mut self, now: Timestamp)
        ensures
            final(self)@ == old(self)@.touch(now),
    {
        self.updated = now;
    }
}

/// What a [`TopicMeta`] says.
pub struct TopicMetaView {
    pub name: Seq<char>,
    pub message_ttl: int,
    pub ttl: int,
    pub created: Timestamp,
    pub updated: Timestamp,
}

impl TopicMetaView {
    /// The description of `topic`: its name, its two times to live in whole
    /// seconds, and its timestamps.
    pub open spec fn of(topic: TopicView) -> TopicMetaView {
        TopicMetaView {
            name: topic.name,
            message_ttl: topic.message_ttl.whole_seconds(),
            ttl: topic.ttl.whole_seconds(),
            created: topic.created,
            updated: topic.updated,
        }
    }
}

/// A topic meta type used to describe a topic to the outside.
#[derive(Debug, PartialEq, Eq, PartialOrd, Ord)]
pub struct TopicMeta {
    /// Unique name of the topic.
    pub name: String,
    /// Message time to live in seconds.
    pub message_ttl: i64,
    /// Time to live of the topic in seconds.
    pub ttl: i64,
    /// Time the topic was created.
    pub created: Timestamp,
    /// Time the topic was updated.
    pub updated: Timestamp,
}

impl View for TopicMeta {
    type V = TopicMetaView;

    open spec fn view(&self) -> TopicMetaView {
        TopicMetaView {
            name: self.name@,
            message_ttl: self.message_ttl as int,
            ttl: self.ttl as int,
            created: self.created,
            updated: self.updated,
        }
    }
}

impl Clone for TopicMeta {
    fn clone(&self) -> (meta: Self)
        ensures
            meta == *self,
    {
        TopicMeta {
            name: self.name.clone(),
            message_ttl: self.message_ttl,
            ttl: self.ttl,
            created: self.created,
            updated: self.updated,
        }
    }
}

impl<'a> FromSpecImpl<&'a Topic> for TopicMeta {
    open spec fn obeys_from_spec() -> bool {
        true
    }

    closed spec fn from_spec(topic: &'a Topic) -> TopicMeta {
        TopicMeta {
            name: topic.name,
            message_ttl: topic.message_ttl.whole_seconds() as i64,
            ttl: topic.ttl.whole_seconds() as i64,
            created: topic.created,
            updated: topic.updated,
        }
    }
}

impl<'a> From<&'a Topic> for TopicMeta {
    fn from(topic: &'a Topic) -> (meta: TopicMeta)
        ensures
            meta@ == TopicMetaView::of(topic@),
    {
        TopicMeta {
            name: topic.name.clone(),
            message_ttl: topic.message_ttl.num_seconds(),
            ttl: topic.ttl.num_seconds(),
            created: topic.created,
            updated: topic.updated,
        }
    }
}

} // verus!
